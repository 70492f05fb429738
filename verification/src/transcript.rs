//! How a session's messages and blocks become transcript rows.
//!
//! A settled turn presents its answer under a single fold that stands for the
//! work before it; the response's footer and file summary follow the turn's
//! last visible row.
use crate::model;
use crate::model::{Id, MessageRole, TurnStatus};
use crate::session::{AgentSession, SessionView};
use crate::text;
use std::collections::HashSet;
use vstd::prelude::*;

verus! {

/// One row of the transcript.
#[derive(Clone, Copy, Debug, PartialEq, Eq, Structural, Hash)]
pub enum TranscriptRowKind {
    Message(usize),
    TurnBlock(usize),
    TurnFold(Id),
    /// Actions and completion time for one settled response.
    ResponseFooter(Id, usize),
    /// The files a turn without a footer changed.
    ChangedFiles(Id),
    /// The live turn's footer.
    WorkingIndicator,
}

// ── What the rows are made from ────────────────────────────────────────────

/// What the rows depend on in one message.
pub struct MessageShape {
    pub role: MessageRole,
    pub turn_id: Option<Id>,
    pub blank: bool,
    pub streaming: bool,
}

/// What the rows depend on in one block.
pub struct BlockShape {
    pub after_message: usize,
    pub turn_id: Option<Id>,
}

/// What the rows depend on in one turn.
pub struct TurnShape {
    pub id: Id,
    pub status: TurnStatus,
    pub has_file_summary: bool,
}

/// Everything in a session that its rows depend on.
#[verifier::ext_equal]
pub struct TranscriptShape {
    pub session_id: Id,
    pub busy: bool,
    pub messages: Seq<MessageShape>,
    pub blocks: Seq<BlockShape>,
    pub turns: Seq<TurnShape>,
}

/// Everything in `session` that its rows depend on.
pub open spec fn shape_of(session: SessionView) -> TranscriptShape {
    TranscriptShape {
        session_id: session.id,
        busy: session.status.busy(),
        messages: Seq::new(
            session.messages.len(),
            |i: int|
                MessageShape {
                    role: session.messages[i].role,
                    turn_id: session.messages[i].turn_id,
                    blank: text::blank(session.messages[i].content),
                    streaming: session.messages[i].streaming,
                },
        ),
        blocks: Seq::new(
            session.blocks.len(),
            |i: int|
                BlockShape {
                    after_message: session.blocks[i].after_message,
                    turn_id: session.blocks[i].turn_id,
                },
        ),
        turns: Seq::new(
            session.turns.len(),
            |i: int|
                TurnShape {
                    id: session.turns[i].id,
                    status: session.turns[i].status,
                    has_file_summary: model::summarizes_files(session.turns[i].checkpoint),
                },
        ),
    }
}

impl TranscriptShape {
    /// Whether a turn is running.
    pub open spec fn has_active_turn(self) -> bool {
        self.turns.len() > 0 && self.turns.last().status == TurnStatus::Running
    }

    /// Where each block stands among the messages.
    pub open spec fn anchors(self) -> Seq<usize> {
        Seq::new(self.blocks.len(), |i: int| self.blocks[i].after_message)
    }

    /// Whether some turn with this identity has stopped running.
    pub open spec fn settled(self, turn_id: Id) -> bool {
        exists|i: int|
            0 <= i < self.turns.len() && (#[trigger] self.turns[i]).id == turn_id
                && self.turns[i].status != TurnStatus::Running
    }

    /// Whether some settled turn with this identity has files to show.
    pub open spec fn changed_files(self, turn_id: Id) -> bool {
        exists|i: int|
            0 <= i < self.turns.len() && (#[trigger] self.turns[i]).id == turn_id
                && self.turns[i].status != TurnStatus::Running && self.turns[i].has_file_summary
    }
}

// ── Messages and blocks in order ───────────────────────────────────────────

/// The message boundary at which a block with this anchor stands.
pub open spec fn boundary(anchor: usize, message_count: nat) -> nat {
    if anchor < message_count {
        anchor as nat
    } else {
        message_count
    }
}

/// The blocks that stand at one message boundary, in the order they arrived.
pub open spec fn blocks_at(anchors: Seq<usize>, message_count: nat, at: nat) -> Seq<
    TranscriptRowKind,
>
    decreases anchors.len(),
{
    if anchors.len() == 0 {
        Seq::empty()
    } else {
        let earlier = blocks_at(anchors.drop_last(), message_count, at);
        if boundary(anchors.last(), message_count) == at {
            earlier.push(TranscriptRowKind::TurnBlock((anchors.len() - 1) as usize))
        } else {
            earlier
        }
    }
}

/// The rows up to and with the blocks at boundary `upto`: blocks that arrived
/// before any message, then each message followed by the blocks after it.
pub open spec fn rows_upto(anchors: Seq<usize>, message_count: nat, upto: nat) -> Seq<
    TranscriptRowKind,
>
    decreases upto,
{
    if upto == 0 {
        blocks_at(anchors, message_count, 0)
    } else {
        rows_upto(anchors, message_count, (upto - 1) as nat).push(
            TranscriptRowKind::Message((upto - 1) as usize),
        ) + blocks_at(anchors, message_count, upto)
    }
}

/// Every message and every block, each block at the boundary where it arrived.
pub open spec fn raw_rows(message_count: nat, anchors: Seq<usize>) -> Seq<TranscriptRowKind> {
    rows_upto(anchors, message_count, message_count)
}

/// Interleave the blocks with the messages: `anchors[n] == 2` puts block `n`
/// after messages 0 and 1, before message 2.
pub fn transcript_row_kinds(message_count: usize, anchors: &Vec<usize>) -> (rows: Vec<
    TranscriptRowKind,
>)
    requires
        message_count < usize::MAX,
    ensures
        rows@ == raw_rows(message_count as nat, anchors@),
{
    let mut buckets: Vec<Vec<TranscriptRowKind>> = Vec::new();
    let mut at: usize = 0;
    while at <= message_count
        invariant
            at <= message_count + 1,
            message_count < usize::MAX,
            buckets@.len() == at,
            forall|k: int|
                0 <= k < at ==> (#[trigger] buckets@[k])@ == Seq::<TranscriptRowKind>::empty(),
        decreases message_count + 1 - at,
    {
        buckets.push(Vec::new());
        at += 1;
    }
    let mut i: usize = 0;
    assert(anchors@.take(0) == Seq::<usize>::empty());
    while i < anchors.len()
        invariant
            i <= anchors@.len(),
            buckets@.len() == message_count + 1,
            forall|k: int|
                0 <= k <= message_count ==> (#[trigger] buckets@[k])@ == blocks_at(
                    anchors@.take(i as int),
                    message_count as nat,
                    k as nat,
                ),
        decreases anchors@.len() - i,
    {
        let target: usize = if anchors[i] < message_count {
            anchors[i]
        } else {
            message_count
        };
        let ghost before = buckets@;
        buckets[target].push(TranscriptRowKind::TurnBlock(i));
        proof {
            let longer = anchors@.take(i + 1);
            assert(longer.drop_last() == anchors@.take(i as int));
            assert(longer.last() == anchors@[i as int]);
            assert forall|k: int| 0 <= k <= message_count implies (#[trigger] buckets@[k])@
                == blocks_at(longer, message_count as nat, k as nat) by {
                if k != target {
                    assert(buckets@[k] == before[k]);
                }
            }
        }
        i += 1;
    }
    assert(anchors@.take(anchors@.len() as int) == anchors@);
    let mut rows: Vec<TranscriptRowKind> = Vec::new();
    extend_rows(&mut rows, &buckets[0]);
    let mut message: usize = 0;
    while message < message_count
        invariant
            message <= message_count,
            message_count < usize::MAX,
            buckets@.len() == message_count + 1,
            forall|k: int|
                0 <= k <= message_count ==> (#[trigger] buckets@[k])@ == blocks_at(
                    anchors@,
                    message_count as nat,
                    k as nat,
                ),
            rows@ == rows_upto(anchors@, message_count as nat, message as nat),
        decreases message_count - message,
    {
        rows.push(TranscriptRowKind::Message(message));
        extend_rows(&mut rows, &buckets[message + 1]);
        message += 1;
    }
    rows
}

fn extend_rows(rows: &mut Vec<TranscriptRowKind>, more: &Vec<TranscriptRowKind>)
    ensures
        final(rows)@ == old(rows)@ + more@,
{
    let mut i: usize = 0;
    assert(rows@ + more@.take(0) == rows@);
    while i < more.len()
        invariant
            i <= more@.len(),
            rows@ == old(rows)@ + more@.take(i as int),
        decreases more@.len() - i,
    {
        assert(more@.take(i + 1) == more@.take(i as int).push(more@[i as int]));
        rows.push(more[i]);
        i += 1;
    }
    assert(more@.take(more@.len() as int) == more@);
}

/// Every message and every block of a session, in order.
pub open spec fn session_rows(shape: TranscriptShape) -> Seq<TranscriptRowKind> {
    raw_rows(shape.messages.len(), shape.anchors())
}

fn session_row_kinds(session: &AgentSession) -> (rows: Vec<TranscriptRowKind>)
    requires
        session.messages@.len() < usize::MAX,
    ensures
        rows@ == session_rows(shape_of(session@)),
{
    let mut anchors: Vec<usize> = Vec::new();
    let mut i: usize = 0;
    while i < session.transcript_blocks.len()
        invariant
            i <= session.transcript_blocks@.len(),
            anchors@.len() == i,
            forall|k: int|
                0 <= k < i ==> #[trigger] anchors@[k]
                    == session.transcript_blocks@[k].after_message,
        decreases session.transcript_blocks@.len() - i,
    {
        anchors.push(session.transcript_blocks[i].after_message);
        i += 1;
    }
    assert(anchors@ =~= shape_of(session@).anchors());
    transcript_row_kinds(session.messages.len(), &anchors)
}

// ── The rows a turn produced ───────────────────────────────────────────────

/// The turn a row belongs to.
pub open spec fn row_turn(shape: TranscriptShape, row: TranscriptRowKind) -> Option<Id> {
    match row {
        TranscriptRowKind::Message(i) => if i < shape.messages.len() {
            shape.messages[i as int].turn_id
        } else {
            None
        },
        TranscriptRowKind::TurnBlock(i) => if i < shape.blocks.len() {
            shape.blocks[i as int].turn_id
        } else {
            None
        },
        TranscriptRowKind::TurnFold(turn_id) => Some(turn_id),
        TranscriptRowKind::ResponseFooter(turn_id, _) => Some(turn_id),
        TranscriptRowKind::ChangedFiles(turn_id) => Some(turn_id),
        TranscriptRowKind::WorkingIndicator => None,
    }
}

/// The turn that produced a message or block. The user's prompt opens a turn
/// and carries its identity, but it is the heading the fold sits under, not
/// one of the turn's rows.
pub open spec fn producer(shape: TranscriptShape, row: TranscriptRowKind) -> Option<Id> {
    match row {
        TranscriptRowKind::Message(i) => if i < shape.messages.len()
            && shape.messages[i as int].role == MessageRole::Assistant {
            shape.messages[i as int].turn_id
        } else {
            None
        },
        TranscriptRowKind::TurnBlock(i) => row_turn(shape, row),
        _ => None,
    }
}

/// The turn's subsequence of `rows`.
pub open spec fn rows_of(shape: TranscriptShape, rows: Seq<TranscriptRowKind>, turn_id: Id) -> Seq<
    TranscriptRowKind,
>
    decreases rows.len(),
{
    if rows.len() == 0 {
        Seq::empty()
    } else {
        let earlier = rows_of(shape, rows.drop_last(), turn_id);
        if producer(shape, rows.last()) == Some(turn_id) {
            earlier.push(rows.last())
        } else {
            earlier
        }
    }
}

/// The rows the turn produced, in transcript order.
pub open spec fn produced_rows(shape: TranscriptShape, turn_id: Id) -> Seq<TranscriptRowKind> {
    rows_of(shape, session_rows(shape), turn_id)
}

/// The turn a row belongs to.
pub fn row_turn_id(session: &AgentSession, row: TranscriptRowKind) -> (turn: Option<Id>)
    ensures
        turn == row_turn(shape_of(session@), row),
{
    match row {
        TranscriptRowKind::Message(i) => {
            if i < session.messages.len() {
                session.messages[i].turn_id
            } else {
                None
            }
        },
        TranscriptRowKind::TurnBlock(i) => {
            if i < session.transcript_blocks.len() {
                session.transcript_blocks[i].turn_id
            } else {
                None
            }
        },
        TranscriptRowKind::TurnFold(turn_id) => Some(turn_id),
        TranscriptRowKind::ResponseFooter(turn_id, _) => Some(turn_id),
        TranscriptRowKind::ChangedFiles(turn_id) => Some(turn_id),
        TranscriptRowKind::WorkingIndicator => None,
    }
}

fn row_producer(session: &AgentSession, row: TranscriptRowKind) -> (turn: Option<Id>)
    ensures
        turn == producer(shape_of(session@), row),
{
    match row {
        TranscriptRowKind::Message(i) => {
            if i < session.messages.len() && session.messages[i].role == MessageRole::Assistant {
                session.messages[i].turn_id
            } else {
                None
            }
        },
        TranscriptRowKind::TurnBlock(_) => row_turn_id(session, row),
        _ => None,
    }
}

/// The response owning a row. The user's prompt opens the turn but is not
/// part of the response.
pub fn response_row_turn_id(session: &AgentSession, row: TranscriptRowKind) -> (turn: Option<Id>)
    ensures
        turn == match row {
            TranscriptRowKind::Message(_) => producer(shape_of(session@), row),
            _ => row_turn(shape_of(session@), row),
        },
{
    match row {
        TranscriptRowKind::Message(_) => row_producer(session, row),
        _ => row_turn_id(session, row),
    }
}

fn filter_turn_rows(
    session: &AgentSession,
    rows: &Vec<TranscriptRowKind>,
    turn_id: Id,
) -> (produced: Vec<TranscriptRowKind>)
    ensures
        produced@ == rows_of(shape_of(session@), rows@, turn_id),
{
    let ghost shape = shape_of(session@);
    let mut produced: Vec<TranscriptRowKind> = Vec::new();
    let mut i: usize = 0;
    assert(rows@.take(0) == Seq::<TranscriptRowKind>::empty());
    while i < rows.len()
        invariant
            i <= rows@.len(),
            shape == shape_of(session@),
            produced@ == rows_of(shape, rows@.take(i as int), turn_id),
        decreases rows@.len() - i,
    {
        assert(rows@.take(i + 1).drop_last() == rows@.take(i as int));
        assert(rows@.take(i + 1).last() == rows@[i as int]);
        if row_producer(session, rows[i]) == Some(turn_id) {
            produced.push(rows[i]);
        }
        i += 1;
    }
    assert(rows@.take(rows@.len() as int) == rows@);
    produced
}

/// The rows the turn produced, in transcript order: its assistant text parts
/// and its blocks, exactly the turn's subsequence of the session's rows.
pub fn turn_rows(session: &AgentSession, turn_id: Id) -> (rows: Vec<TranscriptRowKind>)
    requires
        session.messages@.len() < usize::MAX,
    ensures
        rows@ == produced_rows(shape_of(session@), turn_id),
{
    let rows = session_row_kinds(session);
    filter_turn_rows(session, &rows, turn_id)
}

// ── Where the answer begins ────────────────────────────────────────────────

/// Whether a row is text that the reader sees.
pub open spec fn answer_text(shape: TranscriptShape, row: TranscriptRowKind) -> bool {
    match row {
        TranscriptRowKind::Message(i) => i < shape.messages.len()
            && !shape.messages[i as int].blank,
        _ => false,
    }
}

/// The last of the rows that is text, or -1.
pub open spec fn last_text(shape: TranscriptShape, rows: Seq<TranscriptRowKind>) -> int
    decreases rows.len(),
{
    if rows.len() == 0 {
        -1
    } else if answer_text(shape, rows.last()) {
        rows.len() - 1
    } else {
        last_text(shape, rows.drop_last())
    }
}

/// Where the unbroken run of text that ends before `end` begins.
pub open spec fn run_start(
    shape: TranscriptShape,
    rows: Seq<TranscriptRowKind>,
    end: int,
) -> int
    decreases end,
{
    if end <= 0 {
        0
    } else if answer_text(shape, rows[end - 1]) {
        run_start(shape, rows, end - 1)
    } else {
        end
    }
}

/// Where the turn's answer begins within its own rows: its trailing run of
/// text. Everything before that is work. A turn that produced no text has no
/// answer.
pub open spec fn answer_start(shape: TranscriptShape, rows: Seq<TranscriptRowKind>) -> int {
    if last_text(shape, rows) < 0 {
        rows.len() as int
    } else {
        run_start(shape, rows, last_text(shape, rows))
    }
}

fn is_answer_text(session: &AgentSession, row: TranscriptRowKind) -> (result: bool)
    ensures
        result == answer_text(shape_of(session@), row),
{
    match row {
        TranscriptRowKind::Message(i) => i < session.messages.len() && !text::is_blank(
            session.messages[i].content.as_str(),
        ),
        _ => false,
    }
}

/// Where the turn's answer begins within its own rows.
pub fn turn_answer_start(session: &AgentSession, rows: &Vec<TranscriptRowKind>) -> (start: usize)
    ensures
        start == answer_start(shape_of(session@), rows@),
        start <= rows@.len(),
{
    let ghost shape = shape_of(session@);
    let mut end: usize = rows.len();
    assert(rows@.take(end as int) == rows@);
    while end > 0 && !is_answer_text(session, rows[end - 1])
        invariant
            end <= rows@.len(),
            shape == shape_of(session@),
            last_text(shape, rows@) == last_text(shape, rows@.take(end as int)),
        decreases end,
    {
        assert(rows@.take(end as int).drop_last() == rows@.take(end - 1));
        end -= 1;
    }
    if end == 0 {
        return rows.len();
    }
    let mut start: usize = end - 1;
    assert(last_text(shape, rows@) == start);
    while start > 0 && is_answer_text(session, rows[start - 1])
        invariant
            start < end <= rows@.len(),
            shape == shape_of(session@),
            last_text(shape, rows@) == end - 1,
            run_start(shape, rows@, end - 1) == run_start(shape, rows@, start as int),
        decreases start,
    {
        start -= 1;
    }
    start
}

/// The answer never begins past the turn's rows, every row of the answer up
/// to its last text is text, and the row before the answer is not.
pub proof fn answer_is_the_trailing_run_of_text(
    shape: TranscriptShape,
    rows: Seq<TranscriptRowKind>,
)
    ensures
        0 <= answer_start(shape, rows) <= rows.len(),
        forall|i: int|
            answer_start(shape, rows) <= i <= last_text(shape, rows) ==> answer_text(
                shape,
                #[trigger] rows[i],
            ),
        forall|i: int|
            last_text(shape, rows) < i < rows.len() ==> !answer_text(shape, #[trigger] rows[i]),
        0 < answer_start(shape, rows) < rows.len() ==> !answer_text(
            shape,
            rows[answer_start(shape, rows) - 1],
        ),
{
    lemma_last_text(shape, rows);
    if last_text(shape, rows) >= 0 {
        lemma_run_start(shape, rows, last_text(shape, rows));
    }
}

proof fn lemma_last_text(shape: TranscriptShape, rows: Seq<TranscriptRowKind>)
    ensures
        -1 <= last_text(shape, rows) < rows.len(),
        last_text(shape, rows) >= 0 ==> answer_text(shape, rows[last_text(shape, rows)]),
        forall|i: int|
            last_text(shape, rows) < i < rows.len() ==> !answer_text(shape, #[trigger] rows[i]),
    decreases rows.len(),
{
    if rows.len() > 0 && !answer_text(shape, rows.last()) {
        lemma_last_text(shape, rows.drop_last());
        assert forall|i: int| last_text(shape, rows) < i < rows.len() implies !answer_text(
            shape,
            #[trigger] rows[i],
        ) by {
            if i < rows.len() - 1 {
                assert(rows.drop_last()[i] == rows[i]);
            }
        }
    }
}

proof fn lemma_run_start(shape: TranscriptShape, rows: Seq<TranscriptRowKind>, end: int)
    requires
        0 <= end <= rows.len(),
    ensures
        0 <= run_start(shape, rows, end) <= end,
        forall|i: int|
            run_start(shape, rows, end) <= i < end ==> answer_text(shape, #[trigger] rows[i]),
        0 < run_start(shape, rows, end) ==> !answer_text(
            shape,
            rows[run_start(shape, rows, end) - 1],
        ),
    decreases end,
{
    if end > 0 && answer_text(shape, rows[end - 1]) {
        lemma_run_start(shape, rows, end - 1);
    }
}

// ── Footers ────────────────────────────────────────────────────────────────

/// The last message among the rows.
pub open spec fn last_message(rows: Seq<TranscriptRowKind>) -> Option<usize>
    decreases rows.len(),
{
    if rows.len() == 0 {
        None
    } else {
        match rows.last() {
            TranscriptRowKind::Message(i) => Some(i),
            _ => last_message(rows.drop_last()),
        }
    }
}

/// Whether any of the rows is text.
pub open spec fn has_text(shape: TranscriptShape, rows: Seq<TranscriptRowKind>) -> bool {
    exists|i: int| 0 <= i < rows.len() && answer_text(shape, #[trigger] rows[i])
}

/// The message whose content and identity back the footer of the turn that
/// produced these rows: its last one, once text no longer arrives in it.
/// A turn without text has nothing to copy and no footer.
pub open spec fn footer_message(
    shape: TranscriptShape,
    rows: Seq<TranscriptRowKind>,
) -> Option<usize> {
    match last_message(rows) {
        Some(i) => if i < shape.messages.len() && !shape.messages[i as int].streaming && has_text(
            shape,
            rows,
        ) {
            Some(i)
        } else {
            None
        },
        None => None,
    }
}

fn response_footer_message_index_from_rows(
    session: &AgentSession,
    rows: &Vec<TranscriptRowKind>,
) -> (message: Option<usize>)
    ensures
        message == footer_message(shape_of(session@), rows@),
{
    let ghost shape = shape_of(session@);
    let mut end: usize = rows.len();
    let mut found: Option<usize> = None;
    assert(rows@.take(end as int) == rows@);
    while end > 0 && found.is_none()
        invariant
            end <= rows@.len(),
            found is None ==> last_message(rows@) == last_message(rows@.take(end as int)),
            found is Some ==> last_message(rows@) == found,
        decreases
            end + (if found is None {
                1int
            } else {
                0
            }),
    {
        assert(rows@.take(end as int).drop_last() == rows@.take(end - 1));
        match rows[end - 1] {
            TranscriptRowKind::Message(i) => {
                found = Some(i);
            },
            _ => {
                end -= 1;
            },
        }
    }
    let message: usize = match found {
        Some(message) => message,
        None => {
            return None;
        },
    };
    if message >= session.messages.len() || session.messages[message].streaming {
        return None;
    }
    let mut i: usize = 0;
    while i < rows.len()
        invariant
            i <= rows@.len(),
            shape == shape_of(session@),
            last_message(rows@) == Some(message),
            message < session.messages@.len(),
            !session.messages@[message as int].streaming,
            forall|k: int| 0 <= k < i ==> !answer_text(shape, #[trigger] rows@[k]),
        decreases rows@.len() - i,
    {
        if is_answer_text(session, rows[i]) {
            return Some(message);
        }
        i += 1;
    }
    None
}

/// The assistant message whose content and identity back a turn's footer row.
pub fn response_footer_message_index(session: &AgentSession, turn_id: Id) -> (message: Option<
    usize,
>)
    requires
        session.messages@.len() < usize::MAX,
    ensures
        message == footer_message(
            shape_of(session@),
            produced_rows(shape_of(session@), turn_id),
        ),
{
    let rows = turn_rows(session, turn_id);
    response_footer_message_index_from_rows(session, &rows)
}

// ── The fold ───────────────────────────────────────────────────────────────

/// How many of the first `k` rows the turn produced.
pub open spec fn rank(
    shape: TranscriptShape,
    rows: Seq<TranscriptRowKind>,
    k: int,
    turn_id: Id,
) -> nat {
    rows_of(shape, rows.take(k), turn_id).len()
}

/// What row `k` of the session becomes. The rows of a settled turn before its
/// answer are work: the first of them is preceded by the fold that stands for
/// them all, and each shows only while the turn is expanded. Every other row
/// shows as it is.
pub open spec fn shown_row(
    shape: TranscriptShape,
    expanded: Set<Id>,
    rows: Seq<TranscriptRowKind>,
    k: int,
) -> Seq<TranscriptRowKind> {
    match producer(shape, rows[k]) {
        Some(turn_id) => if shape.settled(turn_id) && rank(shape, rows, k, turn_id) < answer_start(
            shape,
            rows_of(shape, rows, turn_id),
        ) {
            let fold = if rank(shape, rows, k, turn_id) == 0 {
                seq![TranscriptRowKind::TurnFold(turn_id)]
            } else {
                Seq::empty()
            };
            if expanded.contains(turn_id) {
                fold.push(rows[k])
            } else {
                fold
            }
        } else {
            seq![rows[k]]
        },
        None => seq![rows[k]],
    }
}

/// What the first `k` rows of the session become.
pub open spec fn shown_rows(
    shape: TranscriptShape,
    expanded: Set<Id>,
    rows: Seq<TranscriptRowKind>,
    k: int,
) -> Seq<TranscriptRowKind>
    decreases k,
{
    if k <= 0 {
        Seq::empty()
    } else {
        shown_rows(shape, expanded, rows, k - 1) + shown_row(shape, expanded, rows, k - 1)
    }
}

/// The folded rows before file summaries and footers: a busy session with a
/// live turn closes with the working indicator.
pub open spec fn base_rows(shape: TranscriptShape, expanded: Set<Id>) -> Seq<TranscriptRowKind> {
    let rows = session_rows(shape);
    let shown = shown_rows(shape, expanded, rows, rows.len() as int);
    if shape.busy && shape.has_active_turn() {
        shown.push(TranscriptRowKind::WorkingIndicator)
    } else {
        shown
    }
}

/// Which rows are added at the end of a turn.
#[derive(Clone, Copy, PartialEq, Eq, Structural)]
pub enum Trailer {
    ChangedFiles,
    ResponseFooter,
}

/// The row that closes a turn: the footer of a settled response, or the file
/// summary of a settled turn that has files to show and no footer to show
/// them in.
pub open spec fn trailer_row(
    shape: TranscriptShape,
    trailer: Trailer,
    turn_id: Id,
) -> Option<TranscriptRowKind> {
    let footer = footer_message(shape, produced_rows(shape, turn_id));
    match trailer {
        Trailer::ChangedFiles => if shape.changed_files(turn_id) && footer is None {
            Some(TranscriptRowKind::ChangedFiles(turn_id))
        } else {
            None
        },
        Trailer::ResponseFooter => match footer {
            Some(message) => if shape.settled(turn_id) {
                Some(TranscriptRowKind::ResponseFooter(turn_id, message))
            } else {
                None
            },
            None => None,
        },
    }
}

/// Whether row `k` is the last one of its turn.
pub open spec fn last_of_turn(
    shape: TranscriptShape,
    rows: Seq<TranscriptRowKind>,
    k: int,
) -> bool {
    forall|j: int|
        k < j < rows.len() ==> row_turn(shape, #[trigger] rows[j]) != row_turn(shape, rows[k])
}

/// What follows row `k`.
pub open spec fn trailer_after(
    shape: TranscriptShape,
    rows: Seq<TranscriptRowKind>,
    trailer: Trailer,
    k: int,
) -> Seq<TranscriptRowKind> {
    match row_turn(shape, rows[k]) {
        Some(turn_id) => match trailer_row(shape, trailer, turn_id) {
            Some(row) => if last_of_turn(shape, rows, k) {
                seq![row]
            } else {
                Seq::empty()
            },
            None => Seq::empty(),
        },
        None => Seq::empty(),
    }
}

/// The first `k` rows, each turn's last row followed by what closes it.
pub open spec fn with_trailers_upto(
    shape: TranscriptShape,
    rows: Seq<TranscriptRowKind>,
    trailer: Trailer,
    k: int,
) -> Seq<TranscriptRowKind>
    decreases k,
{
    if k <= 0 {
        Seq::empty()
    } else {
        with_trailers_upto(shape, rows, trailer, k - 1).push(rows[k - 1]) + trailer_after(
            shape,
            rows,
            trailer,
            k - 1,
        )
    }
}

/// The rows with each turn's last row followed by what closes it.
pub open spec fn with_trailers(
    shape: TranscriptShape,
    rows: Seq<TranscriptRowKind>,
    trailer: Trailer,
) -> Seq<TranscriptRowKind> {
    with_trailers_upto(shape, rows, trailer, rows.len() as int)
}

/// The rows of the transcript.
pub open spec fn folded_rows(shape: TranscriptShape, expanded: Set<Id>) -> Seq<TranscriptRowKind> {
    with_trailers(
        shape,
        with_trailers(shape, base_rows(shape, expanded), Trailer::ChangedFiles),
        Trailer::ResponseFooter,
    )
}

/// What the fold needs to know of one settled turn.
struct SettledTurn {
    id: Id,
    answer_start: usize,
    footer: Option<usize>,
    has_file_summary: bool,
    /// How many of the turn's rows have been passed.
    seen: usize,
    /// The turn's last row.
    last_row: Option<usize>,
}

spec fn describes(shape: TranscriptShape, turn: SettledTurn) -> bool {
    &&& shape.settled(turn.id)
    &&& turn.answer_start == answer_start(shape, produced_rows(shape, turn.id))
    &&& turn.footer == footer_message(shape, produced_rows(shape, turn.id))
    &&& turn.has_file_summary == shape.changed_files(turn.id)
}

spec fn complete_list(shape: TranscriptShape, turns: Seq<SettledTurn>) -> bool {
    &&& forall|j: int| 0 <= j < turns.len() ==> describes(shape, #[trigger] turns[j])
    &&& forall|j: int, k: int|
        0 <= j < k < turns.len() ==> (#[trigger] turns[j]).id != (#[trigger] turns[k]).id
    &&& forall|t: Id| #[trigger]
        shape.settled(t) ==> exists|j: int| 0 <= j < turns.len() && (#[trigger] turns[j]).id == t
}

fn find_settled(turns: &Vec<SettledTurn>, id: Id) -> (found: Option<usize>)
    ensures
        match found {
            Some(j) => j < turns@.len() && turns@[j as int].id == id,
            None => forall|j: int| 0 <= j < turns@.len() ==> (#[trigger] turns@[j]).id != id,
        },
{
    let mut j: usize = 0;
    while j < turns.len()
        invariant
            j <= turns@.len(),
            forall|k: int| 0 <= k < j ==> (#[trigger] turns@[k]).id != id,
        decreases turns@.len() - j,
    {
        if turns[j].id == id {
            return Some(j);
        }
        j += 1;
    }
    None
}

fn settled_file_summary(session: &AgentSession, turn_id: Id) -> (found: bool)
    ensures
        found == shape_of(session@).changed_files(turn_id),
{
    let ghost shape = shape_of(session@);
    let mut i: usize = 0;
    while i < session.turns.len()
        invariant
            i <= session.turns@.len(),
            shape == shape_of(session@),
            forall|k: int|
                0 <= k < i ==> !((#[trigger] shape.turns[k]).id == turn_id
                    && shape.turns[k].status != TurnStatus::Running
                    && shape.turns[k].has_file_summary),
        decreases session.turns@.len() - i,
    {
        assert(session@.turns[i as int] == session.turns@[i as int]@);
        let turn = &session.turns[i];
        if turn.id == turn_id && turn.status != TurnStatus::Running && turn.has_file_summary() {
            assert(shape.turns[i as int].id == turn_id);
            return true;
        }
        i += 1;
    }
    false
}

fn settled_turns(session: &AgentSession, rows: &Vec<TranscriptRowKind>) -> (turns: Vec<SettledTurn>)
    requires
        rows@ == session_rows(shape_of(session@)),
    ensures
        complete_list(shape_of(session@), turns@),
        forall|j: int| 0 <= j < turns@.len() ==> (#[trigger] turns@[j]).seen == 0,
{
    let ghost shape = shape_of(session@);
    let mut turns: Vec<SettledTurn> = Vec::new();
    let mut i: usize = 0;
    while i < session.turns.len()
        invariant
            i <= session.turns@.len(),
            shape == shape_of(session@),
            rows@ == session_rows(shape),
            forall|j: int| 0 <= j < turns@.len() ==> describes(shape, #[trigger] turns@[j]),
            forall|j: int| 0 <= j < turns@.len() ==> (#[trigger] turns@[j]).seen == 0,
            forall|j: int, k: int|
                0 <= j < k < turns@.len() ==> (#[trigger] turns@[j]).id != (#[trigger] turns@[k]).id,
            forall|k: int|
                0 <= k < i && (#[trigger] shape.turns[k]).status != TurnStatus::Running ==> exists|
                    j: int,
                |
                    0 <= j < turns@.len() && (#[trigger] turns@[j]).id == shape.turns[k].id,
        decreases session.turns@.len() - i,
    {
        let id: Id = session.turns[i].id;
        assert(session@.turns[i as int] == session.turns@[i as int]@);
        assert(shape.turns[i as int].id == id);
        let ghost before = turns@;
        if session.turns[i].status != TurnStatus::Running {
            if find_settled(&turns, id).is_none() {
                let produced = filter_turn_rows(session, rows, id);
                let answer_start = turn_answer_start(session, &produced);
                let footer = response_footer_message_index_from_rows(session, &produced);
                let has_file_summary = settled_file_summary(session, id);
                turns.push(
                    SettledTurn {
                        id,
                        answer_start,
                        footer,
                        has_file_summary,
                        seen: 0,
                        last_row: None,
                    },
                );
                assert(turns@[before.len() as int].id == id);
            }
        }
        proof {
            assert forall|k: int|
                0 <= k < i + 1 && (#[trigger] shape.turns[k]).status
                    != TurnStatus::Running implies exists|j: int|
                0 <= j < turns@.len() && (#[trigger] turns@[j]).id == shape.turns[k].id by {
                if k < i {
                    let j = choose|j: int|
                        0 <= j < before.len() && (#[trigger] before[j]).id == shape.turns[k].id;
                    assert(turns@[j] == before[j]);
                }
            }
        }
        i += 1;
    }
    turns
}

proof fn lemma_rank_bound(
    shape: TranscriptShape,
    rows: Seq<TranscriptRowKind>,
    k: int,
    turn_id: Id,
)
    requires
        0 <= k <= rows.len(),
    ensures
        rank(shape, rows, k, turn_id) <= k,
    decreases k,
{
    if k > 0 {
        assert(rows.take(k).drop_last() == rows.take(k - 1));
        lemma_rank_bound(shape, rows, k - 1, turn_id);
    }
}

proof fn lemma_rank_step(
    shape: TranscriptShape,
    rows: Seq<TranscriptRowKind>,
    k: int,
    turn_id: Id,
)
    requires
        0 <= k < rows.len(),
    ensures
        rank(shape, rows, k + 1, turn_id) == rank(shape, rows, k, turn_id) + (if producer(
            shape,
            rows[k],
        ) == Some(turn_id) {
            1int
        } else {
            0
        }),
{
    assert(rows.take(k + 1).drop_last() == rows.take(k));
    assert(rows.take(k + 1).last() == rows[k]);
}

/// Replace the work of each settled turn by its fold.
fn fold_work(
    session: &AgentSession,
    expanded_turns: &HashSet<Id>,
    raw: &Vec<TranscriptRowKind>,
    turns: &mut Vec<SettledTurn>,
) -> (rows: Vec<TranscriptRowKind>)
    requires
        raw@ == session_rows(shape_of(session@)),
        complete_list(shape_of(session@), old(turns)@),
        forall|j: int| 0 <= j < old(turns)@.len() ==> (#[trigger] old(turns)@[j]).seen == 0,
    ensures
        rows@ == shown_rows(shape_of(session@), expanded_turns@, raw@, raw@.len() as int),
        complete_list(shape_of(session@), final(turns)@),
{
    broadcast use vstd::std_specs::hash::group_hash_axioms;

    let ghost shape = shape_of(session@);
    let mut rows: Vec<TranscriptRowKind> = Vec::new();
    let mut k: usize = 0;
    proof {
        assert forall|j: int| 0 <= j < turns@.len() implies (#[trigger] turns@[j]).seen == rank(
            shape,
            raw@,
            0,
            turns@[j].id,
        ) by {
            lemma_rank_bound(shape, raw@, 0, turns@[j].id);
        }
    }
    while k < raw.len()
        invariant
            k <= raw@.len(),
            shape == shape_of(session@),
            raw@ == session_rows(shape),
            complete_list(shape, turns@),
            forall|j: int|
                0 <= j < turns@.len() ==> (#[trigger] turns@[j]).seen == rank(
                    shape,
                    raw@,
                    k as int,
                    turns@[j].id,
                ),
            rows@ == shown_rows(shape, expanded_turns@, raw@, k as int),
        decreases raw@.len() - k,
    {
        let row = raw[k];
        let ghost shown = rows@;
        let ghost before = turns@;
        match row_producer(session, row) {
            Some(turn_id) => {
                match find_settled(turns, turn_id) {
                    Some(j) => {
                        let seen: usize = turns[j].seen;
                        assert(describes(shape, turns@[j as int]));
                        if seen < turns[j].answer_start {
                            if seen == 0 {
                                rows.push(TranscriptRowKind::TurnFold(turn_id));
                            }
                            if expanded_turns.contains(&turn_id) {
                                rows.push(row);
                            }
                        } else {
                            rows.push(row);
                        }
                        assert(rows@ =~= shown + shown_row(shape, expanded_turns@, raw@, k as int));
                        proof {
                            lemma_rank_bound(shape, raw@, k as int, turn_id);
                        }
                        turns[j].seen = seen + 1;
                    },
                    None => {
                        assert(!shape.settled(turn_id));
                        rows.push(row);
                        assert(rows@ =~= shown + shown_row(shape, expanded_turns@, raw@, k as int));
                    },
                }
            },
            None => {
                rows.push(row);
                assert(rows@ =~= shown + shown_row(shape, expanded_turns@, raw@, k as int));
            },
        }
        proof {
            assert forall|t: Id| #[trigger] shape.settled(t) implies exists|j: int|
                0 <= j < turns@.len() && (#[trigger] turns@[j]).id == t by {
                let j = choose|j: int| 0 <= j < before.len() && (#[trigger] before[j]).id == t;
                assert(turns@[j].id == t);
            }
            assert forall|j: int| 0 <= j < turns@.len() implies (#[trigger] turns@[j]).seen == rank(
                shape,
                raw@,
                k + 1,
                turns@[j].id,
            ) by {
                assert(before[j].id == turns@[j].id);
                lemma_rank_step(shape, raw@, k as int, turns@[j].id);
            }
            assert forall|j: int| 0 <= j < turns@.len() implies describes(
                shape,
                #[trigger] turns@[j],
            ) by {
                assert(describes(shape, before[j]));
            }
            assert forall|i: int, j: int| 0 <= i < j < turns@.len() implies (#[trigger] turns@[i]).id
                != (#[trigger] turns@[j]).id by {
                assert(before[i].id != before[j].id);
            }
        }
        k += 1;
    }
    rows
}

fn find_last_rows(
    session: &AgentSession,
    rows: &Vec<TranscriptRowKind>,
    turns: &mut Vec<SettledTurn>,
)
    requires
        complete_list(shape_of(session@), old(turns)@),
    ensures
        complete_list(shape_of(session@), final(turns)@),
        forall|j: int|
            0 <= j < final(turns)@.len() ==> is_last_row(
                shape_of(session@),
                rows@,
                #[trigger] final(turns)@[j],
                rows@.len() as int,
            ),
{
    let ghost shape = shape_of(session@);
    let mut j: usize = 0;
    while j < turns.len()
        invariant
            j <= turns@.len(),
            complete_list(shape, turns@),
            forall|i: int| 0 <= i < j ==> (#[trigger] turns@[i]).last_row is None,
        decreases turns@.len() - j,
    {
        let ghost before = turns@;
        turns[j].last_row = None;
        proof {
            lemma_same_list(shape, before, turns@);
        }
        j += 1;
    }
    let mut k: usize = 0;
    while k < rows.len()
        invariant
            k <= rows@.len(),
            shape == shape_of(session@),
            complete_list(shape, turns@),
            forall|i: int|
                0 <= i < turns@.len() ==> is_last_row(shape, rows@, #[trigger] turns@[i], k as int),
        decreases rows@.len() - k,
    {
        let ghost before = turns@;
        if let Some(turn_id) = row_turn_id(session, rows[k]) {
            if let Some(i) = find_settled(turns, turn_id) {
                turns[i].last_row = Some(k);
                proof {
                    lemma_same_list(shape, before, turns@);
                }
            }
        }
        assert forall|i: int| 0 <= i < turns@.len() implies is_last_row(
            shape,
            rows@,
            #[trigger] turns@[i],
            k + 1,
        ) by {
            assert(is_last_row(shape, rows@, before[i], k as int));
        }
        k += 1;
    }
}

/// Whether `turn.last_row` is the turn's last among the first `upto` rows.
spec fn is_last_row(
    shape: TranscriptShape,
    rows: Seq<TranscriptRowKind>,
    turn: SettledTurn,
    upto: int,
) -> bool {
    match turn.last_row {
        Some(last) => {
            &&& last < upto
            &&& row_turn(shape, rows[last as int]) == Some(turn.id)
            &&& forall|k: int|
                last < k < upto ==> row_turn(shape, #[trigger] rows[k]) != Some(turn.id)
        },
        None => forall|k: int|
            0 <= k < upto ==> row_turn(shape, #[trigger] rows[k]) != Some(turn.id),
    }
}

proof fn lemma_same_list(shape: TranscriptShape, before: Seq<SettledTurn>, after: Seq<SettledTurn>)
    requires
        complete_list(shape, before),
        after.len() == before.len(),
        forall|j: int|
            0 <= j < before.len() ==> {
                &&& (#[trigger] after[j]).id == before[j].id
                &&& after[j].answer_start == before[j].answer_start
                &&& after[j].footer == before[j].footer
                &&& after[j].has_file_summary == before[j].has_file_summary
            },
    ensures
        complete_list(shape, after),
{
    assert forall|j: int| 0 <= j < after.len() implies describes(shape, #[trigger] after[j]) by {
        assert(describes(shape, before[j]));
    }
    assert forall|i: int, j: int| 0 <= i < j < after.len() implies (#[trigger] after[i]).id != (
    #[trigger] after[j]).id by {
        assert(before[i].id != before[j].id);
    }
    assert forall|t: Id| #[trigger] shape.settled(t) implies exists|j: int|
        0 <= j < after.len() && (#[trigger] after[j]).id == t by {
        let j = choose|j: int| 0 <= j < before.len() && (#[trigger] before[j]).id == t;
        assert(after[j].id == t);
    }
}

/// Add the rows that close each settled turn after the turn's last row.
fn add_trailers(
    session: &AgentSession,
    rows: &Vec<TranscriptRowKind>,
    turns: &mut Vec<SettledTurn>,
    trailer: Trailer,
) -> (result: Vec<TranscriptRowKind>)
    requires
        complete_list(shape_of(session@), old(turns)@),
    ensures
        result@ == with_trailers(shape_of(session@), rows@, trailer),
        complete_list(shape_of(session@), final(turns)@),
{
    let ghost shape = shape_of(session@);
    find_last_rows(session, rows, turns);
    let mut result: Vec<TranscriptRowKind> = Vec::new();
    let mut k: usize = 0;
    while k < rows.len()
        invariant
            k <= rows@.len(),
            shape == shape_of(session@),
            complete_list(shape, turns@),
            forall|i: int|
                0 <= i < turns@.len() ==> is_last_row(
                    shape,
                    rows@,
                    #[trigger] turns@[i],
                    rows@.len() as int,
                ),
            result@ == with_trailers_upto(shape, rows@, trailer, k as int),
        decreases rows@.len() - k,
    {
        let ghost before = result@;
        result.push(rows[k]);
        if let Some(turn_id) = row_turn_id(session, rows[k]) {
            match find_settled(turns, turn_id) {
                Some(i) => {
                    let turn = &turns[i];
                    assert(describes(shape, *turn));
                    assert(is_last_row(shape, rows@, *turn, rows@.len() as int));
                    if turn.last_row == Some(k) {
                        assert(last_of_turn(shape, rows@, k as int));
                        match trailer {
                            Trailer::ChangedFiles => {
                                if turn.has_file_summary && turn.footer.is_none() {
                                    result.push(TranscriptRowKind::ChangedFiles(turn_id));
                                }
                            },
                            Trailer::ResponseFooter => {
                                if let Some(message) = turn.footer {
                                    result.push(
                                        TranscriptRowKind::ResponseFooter(turn_id, message),
                                    );
                                }
                            },
                        }
                    } else {
                        proof {
                            let last = turn.last_row->0;
                            assert(row_turn(shape, rows@[last as int]) == Some(turn_id));
                            assert(!last_of_turn(shape, rows@, k as int));
                        }
                    }
                },
                None => {
                    assert(!shape.settled(turn_id));
                    assert(!shape.changed_files(turn_id));
                },
            }
        }
        assert(result@ =~= before.push(rows@[k as int]) + trailer_after(
            shape,
            rows@,
            trailer,
            k as int,
        ));
        k += 1;
    }
    result
}

/// The rows of the transcript.
pub fn folded_transcript_row_kinds(session: &AgentSession, expanded_turns: &HashSet<Id>) -> (rows:
    Vec<TranscriptRowKind>)
    requires
        session.messages@.len() < usize::MAX,
    ensures
        rows@ == folded_rows(shape_of(session@), expanded_turns@),
{
    let raw = session_row_kinds(session);
    let mut turns = settled_turns(session, &raw);
    let mut rows = fold_work(session, expanded_turns, &raw, &mut turns);
    if session.status.is_busy() && session.active_turn_id().is_some() {
        rows.push(TranscriptRowKind::WorkingIndicator);
    }
    assert(rows@ == base_rows(shape_of(session@), expanded_turns@));
    let with_changes = add_trailers(session, &rows, &mut turns, Trailer::ChangedFiles);
    add_trailers(session, &with_changes, &mut turns, Trailer::ResponseFooter)
}

// ── What folding keeps ─────────────────────────────────────────────────────

/// Whether a row is a message or a block rather than something added by the
/// fold.
pub open spec fn is_content(row: TranscriptRowKind) -> bool {
    row is Message || row is TurnBlock
}

/// The messages and blocks among the rows.
pub open spec fn content_rows(rows: Seq<TranscriptRowKind>) -> Seq<TranscriptRowKind>
    decreases rows.len(),
{
    if rows.len() == 0 {
        Seq::empty()
    } else if is_content(rows.last()) {
        content_rows(rows.drop_last()).push(rows.last())
    } else {
        content_rows(rows.drop_last())
    }
}

/// Whether row `k` is work of a settled turn.
pub open spec fn is_work(shape: TranscriptShape, rows: Seq<TranscriptRowKind>, k: int) -> bool {
    match producer(shape, rows[k]) {
        Some(turn_id) => shape.settled(turn_id) && rank(shape, rows, k, turn_id) < answer_start(
            shape,
            rows_of(shape, rows, turn_id),
        ),
        None => false,
    }
}

/// The first `k` rows without the work of turns that are not expanded.
pub open spec fn visible_rows(
    shape: TranscriptShape,
    expanded: Set<Id>,
    rows: Seq<TranscriptRowKind>,
    k: int,
) -> Seq<TranscriptRowKind>
    decreases k,
{
    if k <= 0 {
        Seq::empty()
    } else {
        let earlier = visible_rows(shape, expanded, rows, k - 1);
        if is_work(shape, rows, k - 1) && !expanded.contains(producer(shape, rows[k - 1])->0) {
            earlier
        } else {
            earlier.push(rows[k - 1])
        }
    }
}

proof fn lemma_content_push(rows: Seq<TranscriptRowKind>, row: TranscriptRowKind)
    ensures
        content_rows(rows.push(row)) == (if is_content(row) {
            content_rows(rows).push(row)
        } else {
            content_rows(rows)
        }),
{
    assert(rows.push(row).drop_last() == rows);
}

proof fn lemma_content_add(a: Seq<TranscriptRowKind>, b: Seq<TranscriptRowKind>)
    ensures
        content_rows(a + b) == content_rows(a) + content_rows(b),
    decreases b.len(),
{
    if b.len() == 0 {
        assert(a + b == a);
    } else {
        lemma_content_add(a, b.drop_last());
        assert((a + b).drop_last() == a + b.drop_last());
        assert((a + b).last() == b.last());
        if is_content(b.last()) {
            assert((content_rows(a) + content_rows(b.drop_last())).push(b.last()) == content_rows(a)
                + content_rows(b.drop_last()).push(b.last()));
        }
    }
}

proof fn lemma_blocks_are_content(anchors: Seq<usize>, count: nat, at: nat)
    ensures
        forall|i: int|
            0 <= i < blocks_at(anchors, count, at).len() ==> is_content(
                #[trigger] blocks_at(anchors, count, at)[i],
            ),
    decreases anchors.len(),
{
    if anchors.len() > 0 {
        lemma_blocks_are_content(anchors.drop_last(), count, at);
        let earlier = blocks_at(anchors.drop_last(), count, at);
        let all = blocks_at(anchors, count, at);
        assert forall|i: int| 0 <= i < all.len() implies is_content(#[trigger] all[i]) by {
            if i < earlier.len() {
                assert(all[i] == earlier[i]);
            }
        }
    }
}

proof fn lemma_rows_are_content(anchors: Seq<usize>, count: nat, upto: nat)
    ensures
        forall|i: int|
            0 <= i < rows_upto(anchors, count, upto).len() ==> is_content(
                #[trigger] rows_upto(anchors, count, upto)[i],
            ),
    decreases upto,
{
    lemma_blocks_are_content(anchors, count, upto);
    if upto > 0 {
        lemma_rows_are_content(anchors, count, (upto - 1) as nat);
        let earlier = rows_upto(anchors, count, (upto - 1) as nat);
        let blocks = blocks_at(anchors, count, upto);
        let all = rows_upto(anchors, count, upto);
        assert forall|i: int| 0 <= i < all.len() implies is_content(#[trigger] all[i]) by {
            if i < earlier.len() {
                assert(all[i] == earlier[i]);
            } else if i > earlier.len() {
                assert(all[i] == blocks[i - earlier.len() - 1]);
            }
        }
    }
}

proof fn lemma_shown_content(
    shape: TranscriptShape,
    expanded: Set<Id>,
    rows: Seq<TranscriptRowKind>,
    k: int,
)
    requires
        0 <= k <= rows.len(),
        forall|i: int| 0 <= i < rows.len() ==> is_content(#[trigger] rows[i]),
    ensures
        content_rows(shown_rows(shape, expanded, rows, k)) == visible_rows(
            shape,
            expanded,
            rows,
            k,
        ),
    decreases k,
{
    if k > 0 {
        lemma_shown_content(shape, expanded, rows, k - 1);
        let shown = shown_row(shape, expanded, rows, k - 1);
        lemma_content_add(shown_rows(shape, expanded, rows, k - 1), shown);
        let row = rows[k - 1];
        let none = Seq::<TranscriptRowKind>::empty();
        lemma_content_push(none, row);
        assert(none.push(row) == seq![row]);
        assert(content_rows(seq![row]) == seq![row]);
        if producer(shape, row) is Some {
            let turn_id = producer(shape, row)->0;
            let fold = seq![TranscriptRowKind::TurnFold(turn_id)];
            lemma_content_push(none, TranscriptRowKind::TurnFold(turn_id));
            assert(none.push(TranscriptRowKind::TurnFold(turn_id)) == fold);
            lemma_content_push(fold, row);
            lemma_content_push(none, row);
        }
        assert(visible_rows(shape, expanded, rows, k - 1) + none == visible_rows(
            shape,
            expanded,
            rows,
            k - 1,
        ));
        assert(visible_rows(shape, expanded, rows, k - 1) + seq![row] == visible_rows(
            shape,
            expanded,
            rows,
            k - 1,
        ).push(row));
    }
}

proof fn lemma_trailers_content(
    shape: TranscriptShape,
    rows: Seq<TranscriptRowKind>,
    trailer: Trailer,
    k: int,
)
    requires
        0 <= k <= rows.len(),
    ensures
        content_rows(with_trailers_upto(shape, rows, trailer, k)) == content_rows(rows.take(k)),
    decreases k,
{
    if k > 0 {
        lemma_trailers_content(shape, rows, trailer, k - 1);
        let earlier = with_trailers_upto(shape, rows, trailer, k - 1);
        let after = trailer_after(shape, rows, trailer, k - 1);
        lemma_content_add(earlier.push(rows[k - 1]), after);
        lemma_content_push(earlier, rows[k - 1]);
        assert(rows.take(k) == rows.take(k - 1).push(rows[k - 1]));
        lemma_content_push(rows.take(k - 1), rows[k - 1]);
        let none = Seq::<TranscriptRowKind>::empty();
        if after.len() > 0 {
            lemma_content_push(none, after[0]);
            assert(none.push(after[0]) == after);
        }
        assert(content_rows(after) == none);
        assert(content_rows(earlier.push(rows[k - 1])) + none == content_rows(
            earlier.push(rows[k - 1]),
        ));
    }
}

/// Folding keeps every message and block in its place but the work of settled
/// turns that are not expanded: that work, and nothing else, is left out.
pub proof fn folding_hides_only_collapsed_work(shape: TranscriptShape, expanded: Set<Id>)
    ensures
        content_rows(folded_rows(shape, expanded)) == visible_rows(
            shape,
            expanded,
            session_rows(shape),
            session_rows(shape).len() as int,
        ),
{
    let rows = session_rows(shape);
    lemma_rows_are_content(shape.anchors(), shape.messages.len(), shape.messages.len());
    let shown = shown_rows(shape, expanded, rows, rows.len() as int);
    lemma_shown_content(shape, expanded, rows, rows.len() as int);
    lemma_content_push(shown, TranscriptRowKind::WorkingIndicator);
    let base = base_rows(shape, expanded);
    let changed = with_trailers(shape, base, Trailer::ChangedFiles);
    lemma_trailers_content(shape, base, Trailer::ChangedFiles, base.len() as int);
    lemma_trailers_content(shape, changed, Trailer::ResponseFooter, changed.len() as int);
    assert(base.take(base.len() as int) == base);
    assert(changed.take(changed.len() as int) == changed);
}

/// Expanding every settled turn restores the transcript's full order: no
/// message and no block is lost.
pub proof fn expanding_everything_loses_no_row(shape: TranscriptShape, expanded: Set<Id>)
    requires
        forall|turn_id: Id| #[trigger] shape.settled(turn_id) ==> expanded.contains(turn_id),
    ensures
        content_rows(folded_rows(shape, expanded)) == session_rows(shape),
{
    folding_hides_only_collapsed_work(shape, expanded);
    let rows = session_rows(shape);
    lemma_all_visible(shape, expanded, rows, rows.len() as int);
    assert(rows.take(rows.len() as int) == rows);
}

proof fn lemma_all_visible(
    shape: TranscriptShape,
    expanded: Set<Id>,
    rows: Seq<TranscriptRowKind>,
    k: int,
)
    requires
        0 <= k <= rows.len(),
        forall|turn_id: Id| #[trigger] shape.settled(turn_id) ==> expanded.contains(turn_id),
    ensures
        visible_rows(shape, expanded, rows, k) == rows.take(k),
    decreases k,
{
    if k > 0 {
        lemma_all_visible(shape, expanded, rows, k - 1);
        assert(rows.take(k) == rows.take(k - 1).push(rows[k - 1]));
    } else {
        assert(rows.take(0) == Seq::<TranscriptRowKind>::empty());
    }
}

// ── The fingerprint ────────────────────────────────────────────────────────

/// The fingerprint of "no session selected", and the seed everything else
/// mixes its session identity into.
pub const EMPTY_TRANSCRIPT_FINGERPRINT: u64 = 0xcbf2_9ce4_8422_2325;

pub const FINGERPRINT_PRIME: u64 = 0x0000_0100_0000_01b3;

/// One mixing step.
pub open spec fn mixed(hash: u64, value: u64) -> u64 {
    (hash ^ value).wrapping_mul(FINGERPRINT_PRIME)
}

/// Every word mixed in, in order.
pub open spec fn mixed_all(seed: u64, words: Seq<u64>) -> u64
    decreases words.len(),
{
    if words.len() == 0 {
        seed
    } else {
        mixed(mixed_all(seed, words.drop_last()), words.last())
    }
}

/// The two halves of an identity, low half first.
pub open spec fn id_words(id: Id) -> Seq<u64> {
    seq![id as u64, (id >> 64) as u64]
}

/// One mixing step.
pub fn mix(hash: u64, value: u64) -> (result: u64)
    ensures
        result == mixed(hash, value),
{
    (hash ^ value).wrapping_mul(FINGERPRINT_PRIME)
}

/// Both halves of an identity mixed in.
pub fn mix_uuid(hash: u64, id: Id) -> (result: u64)
    ensures
        result == mixed(mixed(hash, id as u64), (id >> 64) as u64),
        result == mixed_all(hash, id_words(id)),
{
    proof {
        reveal_with_fuel(mixed_all, 3);
        assert(id_words(id).drop_last() == seq![id as u64]);
        assert(id_words(id).drop_last().drop_last() == Seq::<u64>::empty());
    }
    mix(mix(hash, #[verifier::truncate] (id as u64)), #[verifier::truncate] ((id >> 64) as u64))
}

/// The words of an optional turn identity.
pub open spec fn turn_id_words(turn_id: Option<Id>) -> Seq<u64> {
    match turn_id {
        Some(turn_id) => id_words(turn_id),
        None => seq![u64::MAX],
    }
}

/// The word for a role.
pub open spec fn role_word(role: MessageRole) -> u64 {
    match role {
        MessageRole::User => 0,
        MessageRole::Assistant => 1,
        MessageRole::System => 2,
    }
}

/// The word for a turn status.
pub open spec fn status_word(status: TurnStatus) -> u64 {
    match status {
        TurnStatus::Running => 0,
        TurnStatus::Completed => 1,
        TurnStatus::Failed => 2,
        TurnStatus::Interrupted => 3,
    }
}

/// The word for a condition.
pub open spec fn flag_word(value: bool) -> u64 {
    if value {
        1
    } else {
        0
    }
}

/// The words of one message.
pub open spec fn message_words(message: MessageShape) -> Seq<u64> {
    seq![role_word(message.role)] + turn_id_words(message.turn_id) + seq![
        flag_word(message.blank),
        flag_word(message.streaming),
    ]
}

/// The words of one block.
pub open spec fn block_words(block: BlockShape) -> Seq<u64> {
    seq![block.after_message as u64] + turn_id_words(block.turn_id)
}

/// The words of one turn.
pub open spec fn turn_words(turn: TurnShape) -> Seq<u64> {
    id_words(turn.id) + seq![status_word(turn.status), flag_word(turn.has_file_summary)]
}

/// The words of the first `k` messages.
pub open spec fn messages_words(messages: Seq<MessageShape>, k: int) -> Seq<u64>
    decreases k,
{
    if k <= 0 {
        Seq::empty()
    } else {
        messages_words(messages, k - 1) + message_words(messages[k - 1])
    }
}

/// The words of the first `k` blocks.
pub open spec fn blocks_words(blocks: Seq<BlockShape>, k: int) -> Seq<u64>
    decreases k,
{
    if k <= 0 {
        Seq::empty()
    } else {
        blocks_words(blocks, k - 1) + block_words(blocks[k - 1])
    }
}

/// The words of the first `k` turns.
pub open spec fn turns_words(turns: Seq<TurnShape>, k: int) -> Seq<u64>
    decreases k,
{
    if k <= 0 {
        Seq::empty()
    } else {
        turns_words(turns, k - 1) + turn_words(turns[k - 1])
    }
}

/// What one expanded turn adds to the sum.
pub open spec fn expanded_word(sum: u64, turn_id: Id) -> u64 {
    sum.wrapping_add(mixed_all(EMPTY_TRANSCRIPT_FINGERPRINT, id_words(turn_id)))
}

/// The expanded turns combined by a sum, which has no order.
pub open spec fn expanded_sum(expanded: Set<Id>) -> u64 {
    expanded.fold(0u64, |sum: u64, turn_id: Id| expanded_word(sum, turn_id))
}

/// Everything the rows depend on, as a sequence of words.
pub open spec fn fingerprint_words(shape: TranscriptShape, expanded: Set<Id>) -> Seq<u64> {
    id_words(shape.session_id) + seq![flag_word(shape.busy), shape.messages.len() as u64]
        + messages_words(shape.messages, shape.messages.len() as int)
        + seq![shape.blocks.len() as u64]
        + blocks_words(shape.blocks, shape.blocks.len() as int)
        + seq![shape.turns.len() as u64]
        + turns_words(shape.turns, shape.turns.len() as int)
        + seq![expanded.len() as u64, expanded_sum(expanded)]
}

/// The fingerprint of everything the rows depend on.
pub open spec fn fingerprint(shape: TranscriptShape, expanded: Set<Id>) -> u64 {
    mixed_all(EMPTY_TRANSCRIPT_FINGERPRINT, fingerprint_words(shape, expanded))
}

proof fn lemma_mixed_push(seed: u64, words: Seq<u64>, word: u64)
    ensures
        mixed_all(seed, words.push(word)) == mixed(mixed_all(seed, words), word),
{
    assert(words.push(word).drop_last() == words);
}

proof fn lemma_mixed_add(seed: u64, a: Seq<u64>, b: Seq<u64>)
    ensures
        mixed_all(seed, a + b) == mixed_all(mixed_all(seed, a), b),
    decreases b.len(),
{
    if b.len() == 0 {
        assert(a + b == a);
    } else {
        lemma_mixed_add(seed, a, b.drop_last());
        assert((a + b).drop_last() == a + b.drop_last());
    }
}

fn mix_word(hash: u64, Ghost(seed): Ghost<u64>, Ghost(words): Ghost<Seq<u64>>, word: u64) -> (result:
    u64)
    requires
        hash == mixed_all(seed, words),
    ensures
        result == mixed_all(seed, words + seq![word]),
{
    proof {
        lemma_mixed_push(seed, words, word);
        assert(words + seq![word] == words.push(word));
    }
    mix(hash, word)
}

fn mix_id(hash: u64, Ghost(seed): Ghost<u64>, Ghost(words): Ghost<Seq<u64>>, id: Id) -> (result: u64)
    requires
        hash == mixed_all(seed, words),
    ensures
        result == mixed_all(seed, words + id_words(id)),
{
    proof {
        lemma_mixed_add(seed, words, id_words(id));
    }
    mix_uuid(hash, id)
}

fn mix_turn_id(
    hash: u64,
    Ghost(seed): Ghost<u64>,
    Ghost(words): Ghost<Seq<u64>>,
    turn_id: Option<Id>,
) -> (result: u64)
    requires
        hash == mixed_all(seed, words),
    ensures
        result == mixed_all(seed, words + turn_id_words(turn_id)),
{
    match turn_id {
        Some(turn_id) => mix_id(hash, Ghost(seed), Ghost(words), turn_id),
        None => mix_word(hash, Ghost(seed), Ghost(words), u64::MAX),
    }
}

fn code_of_role(role: MessageRole) -> (word: u64)
    ensures
        word == role_word(role),
{
    match role {
        MessageRole::User => 0,
        MessageRole::Assistant => 1,
        MessageRole::System => 2,
    }
}

fn code_of_status(status: TurnStatus) -> (word: u64)
    ensures
        word == status_word(status),
{
    match status {
        TurnStatus::Running => 0,
        TurnStatus::Completed => 1,
        TurnStatus::Failed => 2,
        TurnStatus::Interrupted => 3,
    }
}

fn code_of_flag(value: bool) -> (word: u64)
    ensures
        word == flag_word(value),
{
    if value {
        1
    } else {
        0
    }
}

/// The identities combined in the given order.
spec fn sum_in_order(ids: Seq<Id>) -> u64
    decreases ids.len(),
{
    if ids.len() == 0 {
        0
    } else {
        expanded_word(sum_in_order(ids.drop_last()), ids.last())
    }
}

proof fn lemma_sum_has_no_order(ids: Seq<Id>)
    requires
        ids.no_duplicates(),
    ensures
        sum_in_order(ids) == expanded_sum(ids.to_set()),
    decreases ids.len(),
{
    let f = |sum: u64, turn_id: Id| expanded_word(sum, turn_id);
    lemma_sum_commutes();
    if ids.len() == 0 {
        vstd::set::fold::lemma_fold_empty::<Id, u64>(0u64, f);
        assert(ids.to_set() =~= Set::empty());
    } else {
        let rest = ids.drop_last();
        lemma_sum_has_no_order(rest);
        assert(!rest.to_set().contains(ids.last())) by {
            if rest.to_set().contains(ids.last()) {
                let j = choose|j: int| 0 <= j < rest.len() && rest[j] == ids.last();
                assert(ids[j] == ids[ids.len() - 1]);
            }
        }
        assert(ids.to_set() =~= rest.to_set().insert(ids.last())) by {
            assert forall|id: Id| ids.to_set().contains(id) implies rest.to_set().insert(
                ids.last(),
            ).contains(id) by {
                let j = choose|j: int| 0 <= j < ids.len() && ids[j] == id;
                if j < rest.len() {
                    assert(rest[j] == id);
                }
            }
            assert forall|id: Id| rest.to_set().insert(ids.last()).contains(id) implies ids.to_set().contains(
                id,
            ) by {
                if rest.to_set().contains(id) {
                    let j = choose|j: int| 0 <= j < rest.len() && rest[j] == id;
                    assert(ids[j] == id);
                } else {
                    assert(ids[ids.len() - 1] == id);
                }
            }
        }
        vstd::set::fold::lemma_fold_insert::<Id, u64>(rest.to_set(), 0u64, f, ids.last());
    }
}

fn mix_expanded(expanded_turns: &HashSet<Id>) -> (sum: u64)
    ensures
        sum == expanded_sum(expanded_turns@),
{
    broadcast use vstd::std_specs::hash::group_hash_axioms;

    let mut sum: u64 = 0;
    proof {
        lemma_sum_has_no_order(Seq::empty());
        assert(Seq::<Id>::empty().to_set() =~= Set::empty());
    }
    if expanded_turns.is_empty() {
        return 0;
    }
    let ghost witness = expanded_turns@.choose();
    for turn_id in iter: expanded_turns.iter()
        invariant
            expanded_turns@.contains(witness),
            iter.seq().unref().to_set() == expanded_turns@,
            iter.seq().no_duplicates(),
            sum == sum_in_order(iter.seq().unref().take(iter.index())),
            iter.index() == iter.seq().len() ==> sum == expanded_sum(expanded_turns@),
    {
        proof {
            let ids = iter.seq().unref();
            let k = iter.index();
            assert(ids.take(k + 1).drop_last() == ids.take(k));
            assert(ids.take(k + 1).last() == *turn_id);
            lemma_sum_of_all(iter.seq(), k + 1);
        }
        sum = sum.wrapping_add(mix_uuid(EMPTY_TRANSCRIPT_FINGERPRINT, *turn_id));
    }
    sum
}

proof fn lemma_sum_of_all(ids: Seq<&Id>, k: int)
    requires
        ids.no_duplicates(),
        0 <= k <= ids.len(),
    ensures
        k == ids.len() ==> sum_in_order(ids.unref().take(k)) == expanded_sum(ids.unref().to_set()),
{
    let all = ids.unref();
    if k == ids.len() {
        assert forall|i: int, j: int|
            0 <= i < all.len() && 0 <= j < all.len() && i != j implies all[i] != all[j] by {
            assert(ids[i] != ids[j]);
        }
        assert(all.take(k) == all);
        lemma_sum_has_no_order(all);
    }
}

proof fn lemma_sum_commutes()
    ensures
        vstd::set::fold::is_fun_commutative(|sum: u64, turn_id: Id| expanded_word(sum, turn_id)),
{
    let f = |sum: u64, turn_id: Id| expanded_word(sum, turn_id);
    assert forall|a: Id, b: Id, sum: u64| #[trigger] f(f(sum, b), a) == f(f(sum, a), b) by {
        let wa = mixed_all(EMPTY_TRANSCRIPT_FINGERPRINT, id_words(a));
        let wb = mixed_all(EMPTY_TRANSCRIPT_FINGERPRINT, id_words(b));
        lemma_wrapping_sum(sum, wa, wb);
    }
}

proof fn lemma_wrapping_sum(sum: u64, a: u64, b: u64)
    ensures
        sum.wrapping_add(b).wrapping_add(a) == sum.wrapping_add(a).wrapping_add(b),
{
}

/// Fingerprint of everything [`folded_transcript_row_kinds`] reads, so a frame
/// can tell a settled transcript from a changed one without refolding it.
pub fn transcript_rows_fingerprint(session: &AgentSession, expanded_turns: &HashSet<Id>) -> (hash: u64)
    ensures
        hash == fingerprint(shape_of(session@), expanded_turns@),
{
    broadcast use vstd::std_specs::hash::group_hash_axioms;

    let ghost shape = shape_of(session@);
    let ghost seed = EMPTY_TRANSCRIPT_FINGERPRINT;
    let ghost mut words: Seq<u64> = Seq::empty();
    let mut hash: u64 = EMPTY_TRANSCRIPT_FINGERPRINT;
    hash = mix_id(hash, Ghost(seed), Ghost(words), session.id);
    proof {
        words = words + id_words(session.id);
    }
    let busy: u64 = code_of_flag(session.status.is_busy());
    hash = mix_word(hash, Ghost(seed), Ghost(words), busy);
    proof {
        words = words + seq![busy];
    }
    let count: u64 = session.messages.len() as u64;
    hash = mix_word(hash, Ghost(seed), Ghost(words), count);
    proof {
        words = words + seq![count];
    }
    let ghost head = words;
    let mut i: usize = 0;
    assert(head + messages_words(shape.messages, 0) == head);
    while i < session.messages.len()
        invariant
            i <= session.messages@.len(),
            shape == shape_of(session@),
            words == head + messages_words(shape.messages, i as int),
            hash == mixed_all(seed, words),
        decreases session.messages@.len() - i,
    {
        let ghost before = words;
        let message = &session.messages[i];
        let role: u64 = code_of_role(message.role);
        hash = mix_word(hash, Ghost(seed), Ghost(words), role);
        proof {
            words = words + seq![role];
        }
        hash = mix_turn_id(hash, Ghost(seed), Ghost(words), message.turn_id);
        proof {
            words = words + turn_id_words(message.turn_id);
        }
        let blank: u64 = code_of_flag(text::is_blank(message.content.as_str()));
        hash = mix_word(hash, Ghost(seed), Ghost(words), blank);
        proof {
            words = words + seq![blank];
        }
        let streaming: u64 = code_of_flag(message.streaming);
        hash = mix_word(hash, Ghost(seed), Ghost(words), streaming);
        proof {
            words = words + seq![streaming];
            assert(words =~= before + message_words(shape.messages[i as int]));
            assert(words =~= head + messages_words(shape.messages, i + 1));
        }
        i += 1;
    }
    let count: u64 = session.transcript_blocks.len() as u64;
    hash = mix_word(hash, Ghost(seed), Ghost(words), count);
    proof {
        words = words + seq![count];
    }
    let ghost head = words;
    let mut i: usize = 0;
    assert(head + blocks_words(shape.blocks, 0) == head);
    while i < session.transcript_blocks.len()
        invariant
            i <= session.transcript_blocks@.len(),
            shape == shape_of(session@),
            words == head + blocks_words(shape.blocks, i as int),
            hash == mixed_all(seed, words),
        decreases session.transcript_blocks@.len() - i,
    {
        let ghost before = words;
        let block = &session.transcript_blocks[i];
        let anchor: u64 = block.after_message as u64;
        hash = mix_word(hash, Ghost(seed), Ghost(words), anchor);
        proof {
            words = words + seq![anchor];
        }
        hash = mix_turn_id(hash, Ghost(seed), Ghost(words), block.turn_id);
        proof {
            words = words + turn_id_words(block.turn_id);
            assert(words =~= before + block_words(shape.blocks[i as int]));
            assert(words =~= head + blocks_words(shape.blocks, i + 1));
        }
        i += 1;
    }
    let count: u64 = session.turns.len() as u64;
    hash = mix_word(hash, Ghost(seed), Ghost(words), count);
    proof {
        words = words + seq![count];
    }
    let ghost head = words;
    let mut i: usize = 0;
    assert(head + turns_words(shape.turns, 0) == head);
    while i < session.turns.len()
        invariant
            i <= session.turns@.len(),
            shape == shape_of(session@),
            words == head + turns_words(shape.turns, i as int),
            hash == mixed_all(seed, words),
        decreases session.turns@.len() - i,
    {
        let ghost before = words;
        let turn = &session.turns[i];
        assert(session@.turns[i as int] == turn@);
        hash = mix_id(hash, Ghost(seed), Ghost(words), turn.id);
        proof {
            words = words + id_words(turn.id);
        }
        let status: u64 = code_of_status(turn.status);
        hash = mix_word(hash, Ghost(seed), Ghost(words), status);
        proof {
            words = words + seq![status];
        }
        let summary: u64 = code_of_flag(turn.has_file_summary());
        hash = mix_word(hash, Ghost(seed), Ghost(words), summary);
        proof {
            words = words + seq![summary];
            assert(words =~= before + turn_words(shape.turns[i as int]));
            assert(words =~= head + turns_words(shape.turns, i + 1));
        }
        i += 1;
    }
    let count: u64 = expanded_turns.len() as u64;
    hash = mix_word(hash, Ghost(seed), Ghost(words), count);
    proof {
        words = words + seq![count];
    }
    let expanded: u64 = mix_expanded(expanded_turns);
    hash = mix_word(hash, Ghost(seed), Ghost(words), expanded);
    proof {
        words = words + seq![expanded];
        assert(words =~= fingerprint_words(shape, expanded_turns@));
    }
    hash
}

proof fn lemma_prime_is_invertible(x: u64, y: u64)
    requires
        x.wrapping_mul(FINGERPRINT_PRIME) == y.wrapping_mul(FINGERPRINT_PRIME),
    ensures
        x == y,
{
    let m: int = 0x1_0000_0000_0000_0000;
    let p: int = FINGERPRINT_PRIME as int;
    let inverse: int = 0xce96_5057_aff6_957b;
    assert((x * p) % m == (y * p) % m);
    lemma_recover(x as int, p, inverse, m);
    lemma_recover(y as int, p, inverse, m);
}

/// Multiplying by the inverse takes a product apart again.
proof fn lemma_recover(x: int, p: int, inverse: int, m: int)
    requires
        0 <= x < m,
        0 < m,
        (p * inverse) % m == 1,
    ensures
        (((x * p) % m) * inverse) % m == x,
{
    vstd::arithmetic::div_mod::lemma_mul_mod_noop_left(x * p, inverse, m);
    assert((x * p) * inverse == x * (p * inverse)) by (nonlinear_arith);
    vstd::arithmetic::div_mod::lemma_mul_mod_noop_right(x, p * inverse, m);
    assert(x * 1 == x);
    vstd::arithmetic::div_mod::lemma_small_mod(x as nat, m as nat);
}

proof fn lemma_mixed_injective(hash: u64, value: u64, other_hash: u64, other_value: u64)
    requires
        mixed(hash, value) == mixed(other_hash, other_value),
    ensures
        value == other_value ==> hash == other_hash,
        hash == other_hash ==> value == other_value,
{
    lemma_prime_is_invertible(hash ^ value, other_hash ^ other_value);
    assert(value == other_value && hash ^ value == other_hash ^ other_value ==> hash == other_hash)
        by (bit_vector);
    assert(hash == other_hash && hash ^ value == other_hash ^ other_value ==> value == other_value)
        by (bit_vector);
}

/// Changing one of the fingerprinted words, whichever it is, moves the
/// fingerprint.
pub proof fn one_changed_word_moves_the_fingerprint(seed: u64, words: Seq<u64>, at: int, word: u64)
    requires
        0 <= at < words.len(),
        words[at] != word,
    ensures
        mixed_all(seed, words) != mixed_all(seed, words.update(at, word)),
    decreases words.len(),
{
    let other = words.update(at, word);
    if at == words.len() - 1 {
        assert(other.drop_last() == words.drop_last());
        if mixed_all(seed, words) == mixed_all(seed, other) {
            lemma_mixed_injective(
                mixed_all(seed, words.drop_last()),
                words.last(),
                mixed_all(seed, other.drop_last()),
                other.last(),
            );
        }
    } else {
        one_changed_word_moves_the_fingerprint(seed, words.drop_last(), at, word);
        assert(other.drop_last() == words.drop_last().update(at, word));
        if mixed_all(seed, words) == mixed_all(seed, other) {
            lemma_mixed_injective(
                mixed_all(seed, words.drop_last()),
                words.last(),
                mixed_all(seed, other.drop_last()),
                other.last(),
            );
        }
    }
}

/// Text that streams into a message which is no longer blank changes nothing
/// that the rows depend on: neither the rows nor the fingerprint move.
pub proof fn streamed_text_moves_no_row(session: SessionView, at: int, delta: Seq<char>)
    requires
        0 <= at < session.messages.len(),
        !text::blank(session.messages[at].content),
    ensures
        shape_of(session.with_text(at, delta)) == shape_of(session),
{
    let after = session.with_text(at, delta);
    let before = session.messages[at].content;
    let i = choose|i: int| 0 <= i < before.len() && !text::is_whitespace(#[trigger] before[i]);
    assert((before + delta)[i] == before[i]);
    assert(!text::blank(before + delta));
    assert forall|k: int| 0 <= k < session.messages.len() implies shape_of(after).messages[k]
        == shape_of(session).messages[k] by {
    }
    assert(shape_of(after) =~= shape_of(session));
}

/// A session that stops being busy changes its fingerprint.
pub proof fn going_idle_moves_the_fingerprint(
    busy: TranscriptShape,
    idle: TranscriptShape,
    expanded: Set<Id>,
)
    requires
        busy.busy,
        idle == (TranscriptShape { busy: false, ..busy }),
    ensures
        fingerprint(busy, expanded) != fingerprint(idle, expanded),
{
    let words = fingerprint_words(busy, expanded);
    assert(fingerprint_words(idle, expanded) =~= words.update(2, 0));
    one_changed_word_moves_the_fingerprint(EMPTY_TRANSCRIPT_FINGERPRINT, words, 2, 0);
}

/// Two word sequences that differ at one place of the part between `front` and
/// `back` give different fingerprints.
proof fn lemma_one_word_between(
    front: Seq<u64>,
    part: Seq<u64>,
    other: Seq<u64>,
    back: Seq<u64>,
    at: int,
)
    requires
        0 <= at < part.len(),
        other == part.update(at, other[at]),
        other[at] != part[at],
    ensures
        mixed_all(EMPTY_TRANSCRIPT_FINGERPRINT, front + other + back) != mixed_all(
            EMPTY_TRANSCRIPT_FINGERPRINT,
            front + part + back,
        ),
{
    let words = front + part + back;
    assert(words.update(front.len() + at, other[at]) =~= front + other + back);
    one_changed_word_moves_the_fingerprint(
        EMPTY_TRANSCRIPT_FINGERPRINT,
        words,
        front.len() + at,
        other[at],
    );
}

proof fn lemma_regroup(
    before: Seq<u64>,
    head: Seq<u64>,
    part: Seq<u64>,
    tail: Seq<u64>,
    after: Seq<u64>,
)
    ensures
        before + (head + part + tail) + after == (before + head) + part + (tail + after),
{
    assert(before + (head + part + tail) + after =~= (before + head) + part + (tail + after));
}

spec fn messages_tail(messages: Seq<MessageShape>, i: int, n: int) -> Seq<u64>
    decreases n - i,
{
    if n <= i {
        Seq::empty()
    } else {
        messages_tail(messages, i, n - 1) + message_words(messages[n - 1])
    }
}

proof fn lemma_messages_split(messages: Seq<MessageShape>, other: Seq<MessageShape>, i: int, n: int)
    requires
        0 <= i < n <= messages.len(),
        other.len() == messages.len(),
        forall|k: int| 0 <= k < n && k != i ==> messages[k] == other[k],
    ensures
        messages_words(messages, n) == messages_words(messages, i) + message_words(messages[i])
            + messages_tail(messages, i + 1, n),
        messages_words(other, n) == messages_words(messages, i) + message_words(other[i])
            + messages_tail(messages, i + 1, n),
    decreases n,
{
    if n > i + 1 {
        lemma_messages_split(messages, other, i, n - 1);
        assert(messages_words(messages, n) =~= messages_words(messages, i) + message_words(
            messages[i],
        ) + messages_tail(messages, i + 1, n));
        assert(messages_words(other, n) =~= messages_words(messages, i) + message_words(other[i])
            + messages_tail(messages, i + 1, n));
    } else {
        lemma_messages_head(messages, other, i);
        assert(messages_words(messages, n) =~= messages_words(messages, i) + message_words(
            messages[i],
        ) + messages_tail(messages, i + 1, n));
        assert(messages_words(other, n) =~= messages_words(messages, i) + message_words(other[i])
            + messages_tail(messages, i + 1, n));
    }
}

proof fn lemma_messages_head(messages: Seq<MessageShape>, other: Seq<MessageShape>, k: int)
    requires
        forall|j: int| 0 <= j < k ==> messages[j] == other[j],
    ensures
        messages_words(messages, k) == messages_words(other, k),
    decreases k,
{
    if k > 0 {
        lemma_messages_head(messages, other, k - 1);
    }
}

spec fn blocks_tail(blocks: Seq<BlockShape>, i: int, n: int) -> Seq<u64>
    decreases n - i,
{
    if n <= i {
        Seq::empty()
    } else {
        blocks_tail(blocks, i, n - 1) + block_words(blocks[n - 1])
    }
}

proof fn lemma_blocks_split(blocks: Seq<BlockShape>, other: Seq<BlockShape>, i: int, n: int)
    requires
        0 <= i < n <= blocks.len(),
        other.len() == blocks.len(),
        forall|k: int| 0 <= k < n && k != i ==> blocks[k] == other[k],
    ensures
        blocks_words(blocks, n) == blocks_words(blocks, i) + block_words(blocks[i]) + blocks_tail(
            blocks,
            i + 1,
            n,
        ),
        blocks_words(other, n) == blocks_words(blocks, i) + block_words(other[i]) + blocks_tail(
            blocks,
            i + 1,
            n,
        ),
    decreases n,
{
    if n > i + 1 {
        lemma_blocks_split(blocks, other, i, n - 1);
    } else {
        lemma_blocks_head(blocks, other, i);
    }
    assert(blocks_words(blocks, n) =~= blocks_words(blocks, i) + block_words(blocks[i])
        + blocks_tail(blocks, i + 1, n));
    assert(blocks_words(other, n) =~= blocks_words(blocks, i) + block_words(other[i])
        + blocks_tail(blocks, i + 1, n));
}

proof fn lemma_blocks_head(blocks: Seq<BlockShape>, other: Seq<BlockShape>, k: int)
    requires
        forall|j: int| 0 <= j < k ==> blocks[j] == other[j],
    ensures
        blocks_words(blocks, k) == blocks_words(other, k),
    decreases k,
{
    if k > 0 {
        lemma_blocks_head(blocks, other, k - 1);
    }
}

spec fn turns_tail(turns: Seq<TurnShape>, i: int, n: int) -> Seq<u64>
    decreases n - i,
{
    if n <= i {
        Seq::empty()
    } else {
        turns_tail(turns, i, n - 1) + turn_words(turns[n - 1])
    }
}

proof fn lemma_turns_split(turns: Seq<TurnShape>, other: Seq<TurnShape>, i: int, n: int)
    requires
        0 <= i < n <= turns.len(),
        other.len() == turns.len(),
        forall|k: int| 0 <= k < n && k != i ==> turns[k] == other[k],
    ensures
        turns_words(turns, n) == turns_words(turns, i) + turn_words(turns[i]) + turns_tail(
            turns,
            i + 1,
            n,
        ),
        turns_words(other, n) == turns_words(turns, i) + turn_words(other[i]) + turns_tail(
            turns,
            i + 1,
            n,
        ),
    decreases n,
{
    if n > i + 1 {
        lemma_turns_split(turns, other, i, n - 1);
    } else {
        lemma_turns_head(turns, other, i);
    }
    assert(turns_words(turns, n) =~= turns_words(turns, i) + turn_words(turns[i]) + turns_tail(
        turns,
        i + 1,
        n,
    ));
    assert(turns_words(other, n) =~= turns_words(turns, i) + turn_words(other[i]) + turns_tail(
        turns,
        i + 1,
        n,
    ));
}

proof fn lemma_turns_head(turns: Seq<TurnShape>, other: Seq<TurnShape>, k: int)
    requires
        forall|j: int| 0 <= j < k ==> turns[j] == other[j],
    ensures
        turns_words(turns, k) == turns_words(other, k),
    decreases k,
{
    if k > 0 {
        lemma_turns_head(turns, other, k - 1);
    }
}

/// The words before those of the messages.
spec fn words_before_messages(shape: TranscriptShape) -> Seq<u64> {
    id_words(shape.session_id) + seq![flag_word(shape.busy), shape.messages.len() as u64]
}

/// The words before those of the blocks.
spec fn words_before_blocks(shape: TranscriptShape) -> Seq<u64> {
    words_before_messages(shape) + messages_words(shape.messages, shape.messages.len() as int)
        + seq![shape.blocks.len() as u64]
}

/// The words before those of the turns.
spec fn words_before_turns(shape: TranscriptShape) -> Seq<u64> {
    words_before_blocks(shape) + blocks_words(shape.blocks, shape.blocks.len() as int) + seq![
        shape.turns.len() as u64,
    ]
}

/// The words after those of the turns.
spec fn words_after_turns(expanded: Set<Id>) -> Seq<u64> {
    seq![expanded.len() as u64, expanded_sum(expanded)]
}

/// The words after those of the blocks.
spec fn words_after_blocks(shape: TranscriptShape, expanded: Set<Id>) -> Seq<u64> {
    seq![shape.turns.len() as u64] + turns_words(shape.turns, shape.turns.len() as int)
        + words_after_turns(expanded)
}

/// The words after those of the messages.
spec fn words_after_messages(shape: TranscriptShape, expanded: Set<Id>) -> Seq<u64> {
    seq![shape.blocks.len() as u64] + blocks_words(shape.blocks, shape.blocks.len() as int)
        + words_after_blocks(shape, expanded)
}

proof fn lemma_words_in_parts(shape: TranscriptShape, expanded: Set<Id>)
    ensures
        fingerprint_words(shape, expanded) == words_before_messages(shape) + messages_words(
            shape.messages,
            shape.messages.len() as int,
        ) + words_after_messages(shape, expanded),
        fingerprint_words(shape, expanded) == words_before_blocks(shape) + blocks_words(
            shape.blocks,
            shape.blocks.len() as int,
        ) + words_after_blocks(shape, expanded),
        fingerprint_words(shape, expanded) == words_before_turns(shape) + turns_words(
            shape.turns,
            shape.turns.len() as int,
        ) + words_after_turns(expanded),
{
    let b = words_before_blocks(shape);
    let blocks = blocks_words(shape.blocks, shape.blocks.len() as int);
    let count = seq![shape.turns.len() as u64];
    let turns = turns_words(shape.turns, shape.turns.len() as int);
    let end = words_after_turns(expanded);
    assert(fingerprint_words(shape, expanded) == b + blocks + count + turns + end);
    lemma_five_parts(b, blocks, count, turns, end);
    lemma_five_parts(
        words_before_messages(shape),
        messages_words(shape.messages, shape.messages.len() as int),
        seq![shape.blocks.len() as u64],
        blocks,
        words_after_blocks(shape, expanded),
    );
}

proof fn lemma_five_parts(a: Seq<u64>, b: Seq<u64>, c: Seq<u64>, d: Seq<u64>, e: Seq<u64>)
    ensures
        a + b + c + d + e == a + b + (c + d + e),
{
    assert(a + b + c + d + e =~= a + b + (c + d + e));
}

/// A message that changes its role, becomes blank or stops being blank, or
/// starts or stops to stream moves the fingerprint.
pub proof fn a_changed_message_moves_the_fingerprint(
    shape: TranscriptShape,
    i: int,
    changed: MessageShape,
    expanded: Set<Id>,
)
    requires
        0 <= i < shape.messages.len(),
        changed == (MessageShape { role: changed.role, ..shape.messages[i] }) || changed == (
        MessageShape { blank: changed.blank, ..shape.messages[i] }) || changed == (MessageShape {
            streaming: changed.streaming,
            ..shape.messages[i]
        }),
        changed != shape.messages[i],
    ensures
        fingerprint(
            TranscriptShape { messages: shape.messages.update(i, changed), ..shape },
            expanded,
        ) != fingerprint(shape, expanded),
{
    let after = TranscriptShape { messages: shape.messages.update(i, changed), ..shape };
    let n = shape.messages.len() as int;
    let before = words_before_messages(shape);
    let head = messages_words(shape.messages, i);
    let tail = messages_tail(shape.messages, i + 1, n);
    let end = words_after_messages(shape, expanded);
    let part = message_words(shape.messages[i]);
    let other = message_words(changed);
    lemma_words_in_parts(shape, expanded);
    lemma_words_in_parts(after, expanded);
    lemma_messages_split(shape.messages, after.messages, i, n);
    lemma_regroup(before, head, part, tail, end);
    lemma_regroup(before, head, other, tail, end);
    let at: int = if changed.role != shape.messages[i].role {
        0
    } else if changed.blank != shape.messages[i].blank {
        part.len() - 2
    } else {
        part.len() - 1
    };
    assert(other =~= part.update(at, other[at]));
    lemma_one_word_between(before + head, part, other, tail + end, at);
}

/// A block that is anchored elsewhere moves the fingerprint.
pub proof fn an_anchored_block_moves_the_fingerprint(
    shape: TranscriptShape,
    i: int,
    after_message: usize,
    expanded: Set<Id>,
)
    requires
        0 <= i < shape.blocks.len(),
        after_message != shape.blocks[i].after_message,
    ensures
        fingerprint(
            TranscriptShape {
                blocks: shape.blocks.update(i, BlockShape { after_message, ..shape.blocks[i] }),
                ..shape
            },
            expanded,
        ) != fingerprint(shape, expanded),
{
    let changed = BlockShape { after_message, ..shape.blocks[i] };
    let after = TranscriptShape { blocks: shape.blocks.update(i, changed), ..shape };
    let n = shape.blocks.len() as int;
    let before = words_before_blocks(shape);
    let head = blocks_words(shape.blocks, i);
    let tail = blocks_tail(shape.blocks, i + 1, n);
    let end = words_after_blocks(shape, expanded);
    let part = block_words(shape.blocks[i]);
    let other = block_words(changed);
    lemma_words_in_parts(shape, expanded);
    lemma_words_in_parts(after, expanded);
    lemma_blocks_split(shape.blocks, after.blocks, i, n);
    lemma_regroup(before, head, part, tail, end);
    lemma_regroup(before, head, other, tail, end);
    assert(other =~= part.update(0, other[0]));
    lemma_one_word_between(before + head, part, other, tail + end, 0);
}

/// A turn that is settled or taken up again, or that gains or loses its
/// changed files, moves the fingerprint.
pub proof fn a_changed_turn_moves_the_fingerprint(
    shape: TranscriptShape,
    i: int,
    changed: TurnShape,
    expanded: Set<Id>,
)
    requires
        0 <= i < shape.turns.len(),
        changed == (TurnShape { status: changed.status, ..shape.turns[i] }) || changed == (
        TurnShape { has_file_summary: changed.has_file_summary, ..shape.turns[i] }),
        changed != shape.turns[i],
    ensures
        fingerprint(
            TranscriptShape { turns: shape.turns.update(i, changed), ..shape },
            expanded,
        ) != fingerprint(shape, expanded),
{
    let after = TranscriptShape { turns: shape.turns.update(i, changed), ..shape };
    let n = shape.turns.len() as int;
    let before = words_before_turns(shape);
    let head = turns_words(shape.turns, i);
    let tail = turns_tail(shape.turns, i + 1, n);
    let end = words_after_turns(expanded);
    let part = turn_words(shape.turns[i]);
    let other = turn_words(changed);
    lemma_words_in_parts(shape, expanded);
    lemma_words_in_parts(after, expanded);
    lemma_turns_split(shape.turns, after.turns, i, n);
    lemma_regroup(before, head, part, tail, end);
    lemma_regroup(before, head, other, tail, end);
    let at: int = if changed.status != shape.turns[i].status {
        2
    } else {
        3
    };
    assert(other =~= part.update(at, other[at]));
    lemma_one_word_between(before + head, part, other, tail + end, at);
}

// ── Splicing ───────────────────────────────────────────────────────────────

/// How one list of rows becomes another: the rows from `start` up to
/// `old_end` give way to `new_count` rows.
#[derive(Clone, Copy, Debug, PartialEq, Eq, Structural)]
pub struct RowSplice {
    pub start: usize,
    pub old_end: usize,
    pub new_count: usize,
}

/// How many leading rows two lists share.
pub open spec fn common_prefix(a: Seq<TranscriptRowKind>, b: Seq<TranscriptRowKind>) -> nat
    decreases a.len(),
{
    if a.len() > 0 && b.len() > 0 && a[0] == b[0] {
        1 + common_prefix(a.skip(1), b.skip(1))
    } else {
        0
    }
}

/// How many trailing rows two lists share.
pub open spec fn common_suffix(a: Seq<TranscriptRowKind>, b: Seq<TranscriptRowKind>) -> nat
    decreases a.len(),
{
    if a.len() > 0 && b.len() > 0 && a.last() == b.last() {
        1 + common_suffix(a.drop_last(), b.drop_last())
    } else {
        0
    }
}

/// The smallest replacement between the rows two lists share at both ends;
/// `None` for equal lists.
pub open spec fn splice_between(
    previous: Seq<TranscriptRowKind>,
    next: Seq<TranscriptRowKind>,
) -> Option<RowSplice> {
    let prefix = common_prefix(previous, next);
    let suffix = common_suffix(previous.skip(prefix as int), next.skip(prefix as int));
    if previous == next {
        None
    } else {
        Some(
            RowSplice {
                start: prefix as usize,
                old_end: (previous.len() - suffix) as usize,
                new_count: (next.len() - prefix - suffix) as usize,
            },
        )
    }
}

/// The rows after a splice, whose new rows come from `next`.
pub open spec fn spliced(
    previous: Seq<TranscriptRowKind>,
    next: Seq<TranscriptRowKind>,
    splice: RowSplice,
) -> Seq<TranscriptRowKind> {
    previous.take(splice.start as int) + next.subrange(
        splice.start as int,
        splice.start + splice.new_count,
    ) + previous.skip(splice.old_end as int)
}

proof fn lemma_common_prefix_at(
    a: Seq<TranscriptRowKind>,
    b: Seq<TranscriptRowKind>,
    k: int,
)
    requires
        0 <= k <= a.len(),
        k <= b.len(),
        forall|i: int| 0 <= i < k ==> #[trigger] a[i] == b[i],
        k < a.len() && k < b.len() ==> a[k] != b[k],
    ensures
        common_prefix(a, b) == k,
    decreases k,
{
    if k > 0 {
        assert(a[0] == b[0]);
        let ra = a.skip(1);
        let rb = b.skip(1);
        assert forall|i: int| 0 <= i < k - 1 implies #[trigger] ra[i] == rb[i] by {
            assert(a[i + 1] == b[i + 1]);
        }
        lemma_common_prefix_at(ra, rb, k - 1);
    }
}

proof fn lemma_common_suffix_at(
    a: Seq<TranscriptRowKind>,
    b: Seq<TranscriptRowKind>,
    k: int,
)
    requires
        0 <= k <= a.len(),
        k <= b.len(),
        forall|i: int| 0 <= i < k ==> #[trigger] a[a.len() - 1 - i] == b[b.len() - 1 - i],
        k < a.len() && k < b.len() ==> a[a.len() - 1 - k] != b[b.len() - 1 - k],
    ensures
        common_suffix(a, b) == k,
    decreases k,
{
    if k > 0 {
        assert(a[a.len() - 1 - 0] == b[b.len() - 1 - 0]);
        let ra = a.drop_last();
        let rb = b.drop_last();
        assert forall|i: int| 0 <= i < k - 1 implies #[trigger] ra[ra.len() - 1 - i] == rb[rb.len()
            - 1 - i] by {
            assert(a[a.len() - 1 - (i + 1)] == b[b.len() - 1 - (i + 1)]);
        }
        lemma_common_suffix_at(ra, rb, k - 1);
    }
}

/// How the rows on screen become the next ones.
pub fn transcript_row_splice(
    previous: &Vec<TranscriptRowKind>,
    next: &Vec<TranscriptRowKind>,
) -> (splice: Option<RowSplice>)
    ensures
        splice == splice_between(previous@, next@),
        splice is None <==> previous@ == next@,
        match splice {
            Some(splice) => {
                &&& splice.start <= splice.old_end <= previous@.len()
                &&& splice.start + splice.new_count <= next@.len()
                &&& spliced(previous@, next@, splice) == next@
            },
            None => true,
        },
{
    let mut prefix: usize = 0;
    while prefix < previous.len() && prefix < next.len() && previous[prefix] == next[prefix]
        invariant
            prefix <= previous@.len(),
            prefix <= next@.len(),
            forall|i: int| 0 <= i < prefix ==> #[trigger] previous@[i] == next@[i],
        decreases previous@.len() - prefix,
    {
        prefix += 1;
    }
    proof {
        lemma_common_prefix_at(previous@, next@, prefix as int);
    }
    let mut suffix: usize = 0;
    while suffix < previous.len() - prefix && suffix < next.len() - prefix && previous[previous.len()
        - 1 - suffix] == next[next.len() - 1 - suffix]
        invariant
            prefix <= previous@.len(),
            prefix <= next@.len(),
            suffix <= previous@.len() - prefix,
            suffix <= next@.len() - prefix,
            forall|i: int|
                0 <= i < suffix ==> #[trigger] previous@[previous@.len() - 1 - i]
                    == next@[next@.len() - 1 - i],
        decreases previous@.len() - suffix,
    {
        suffix += 1;
    }
    proof {
        let a = previous@.skip(prefix as int);
        let b = next@.skip(prefix as int);
        assert forall|i: int| 0 <= i < suffix implies #[trigger] a[a.len() - 1 - i] == b[b.len() - 1
            - i] by {
            assert(previous@[previous@.len() - 1 - i] == next@[next@.len() - 1 - i]);
        }
        lemma_common_suffix_at(a, b, suffix as int);
    }
    let old_end: usize = previous.len() - suffix;
    let new_count: usize = next.len() - prefix - suffix;
    proof {
        let splice = RowSplice { start: prefix, old_end, new_count };
        let result = spliced(previous@, next@, splice);
        assert forall|i: int| 0 <= i < next@.len() implies #[trigger] result[i] == next@[i] by {
            if i >= prefix + new_count {
                let j = next@.len() - 1 - i;
                assert(previous@[previous@.len() - 1 - j] == next@[next@.len() - 1 - j]);
            }
        }
        assert(result =~= next@);
        if prefix == old_end && new_count == 0 {
            assert(previous@.len() == next@.len());
            assert(result =~= previous@);
        } else if previous@ == next@ {
            assert(prefix < previous@.len() ==> previous@[prefix as int] == next@[prefix as int]);
        }
    }
    if prefix != old_end || new_count != 0 {
        Some(RowSplice { start: prefix, old_end, new_count })
    } else {
        None
    }
}

} // verus!
