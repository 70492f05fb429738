//! Questions that the agent asks the user: one is on screen at a time, each
//! takes chosen options or a text of the user's own.
use crate::text;
use vstd::prelude::*;

verus! {

// ── A table keyed by text ──────────────────────────────────────────────────

/// One entry of a table.
pub struct Row<V> {
    pub key: String,
    pub value: V,
}

/// Values under distinct texts.
pub struct Table<V> {
    pub rows: Vec<Row<V>>,
}

/// Whether a row has this key.
pub open spec fn has_key<V>(rows: Seq<Row<V>>, key: Seq<char>) -> bool {
    exists|i: int| 0 <= i < rows.len() && (#[trigger] rows[i]).key@ == key
}

/// The row that has this key.
pub open spec fn row_of<V>(rows: Seq<Row<V>>, key: Seq<char>) -> int {
    choose|i: int| 0 <= i < rows.len() && (#[trigger] rows[i]).key@ == key
}

impl<V> View for Table<V> {
    type V = Map<Seq<char>, V>;

    open spec fn view(&self) -> Map<Seq<char>, V> {
        Map::new(
            |key: Seq<char>| has_key(self.rows@, key),
            |key: Seq<char>| self.rows@[row_of(self.rows@, key)].value,
        )
    }
}

impl<V> Table<V> {
    /// No key occurs twice.
    pub open spec fn wf(&self) -> bool {
        forall|i: int, j: int|
            0 <= i < j < self.rows@.len() ==> (#[trigger] self.rows@[i]).key@ != (
            #[trigger] self.rows@[j]).key@
    }

    /// A table without entries.
    pub fn new() -> (table: Table<V>)
        ensures
            table.wf(),
            table@ == Map::<Seq<char>, V>::empty(),
    {
        let table = Table { rows: Vec::new() };
        assert(table@ =~= Map::<Seq<char>, V>::empty());
        table
    }

    fn find(&self, key: &str) -> (found: Option<usize>)
        ensures
            match found {
                Some(i) => i < self.rows@.len() && self.rows@[i as int].key@ == key@,
                None => !has_key(self.rows@, key@),
            },
    {
        let mut i: usize = 0;
        while i < self.rows.len()
            invariant
                i <= self.rows@.len(),
                forall|k: int| 0 <= k < i ==> (#[trigger] self.rows@[k]).key@ != key@,
            decreases self.rows@.len() - i,
        {
            if text::same(self.rows[i].key.as_str(), key) {
                return Some(i);
            }
            i += 1;
        }
        None
    }

    /// The value under a key.
    pub fn get(&self, key: &str) -> (value: Option<&V>)
        requires
            self.wf(),
        ensures
            match value {
                Some(value) => self@.dom().contains(key@) && *value == self@[key@],
                None => !self@.dom().contains(key@),
            },
    {
        match self.find(key) {
            Some(i) => {
                assert(has_key(self.rows@, key@));
                assert(row_of(self.rows@, key@) == i);
                Some(&self.rows[i].value)
            },
            None => None,
        }
    }

    /// Put a value under a key, in place of the one that stands there.
    pub fn insert(&mut self, key: String, value: V)
        requires
            old(self).wf(),
        ensures
            final(self).wf(),
            final(self)@ == old(self)@.insert(key@, value),
    {
        let ghost before = self.rows@;
        match self.find(key.as_str()) {
            Some(i) => {
                self.rows[i].value = value;
                proof {
                    lemma_row_changed(before, self.rows@, i as int, value);
                }
            },
            None => {
                self.rows.push(Row { key, value });
                proof {
                    lemma_row_added(before, self.rows@, key@, value);
                }
            },
        }
        assert(self@ =~= old(self)@.insert(key@, value));
    }

    /// Take the value under a key out of the table.
    pub fn remove(&mut self, key: &str)
        requires
            old(self).wf(),
        ensures
            final(self).wf(),
            final(self)@ == old(self)@.remove(key@),
    {
        let ghost before = self.rows@;
        if let Some(i) = self.find(key) {
            self.rows.remove(i);
            proof {
                lemma_row_removed(before, self.rows@, i as int);
            }
        }
        assert(self@ =~= old(self)@.remove(key@));
    }
}

proof fn lemma_unique<V>(rows: Seq<Row<V>>, i: int)
    requires
        0 <= i < rows.len(),
        forall|i: int, j: int|
            0 <= i < j < rows.len() ==> (#[trigger] rows[i]).key@ != (#[trigger] rows[j]).key@,
    ensures
        has_key(rows, rows[i].key@),
        row_of(rows, rows[i].key@) == i,
{
}

proof fn lemma_row_changed<V>(before: Seq<Row<V>>, after: Seq<Row<V>>, at: int, value: V)
    requires
        0 <= at < before.len(),
        forall|i: int, j: int|
            0 <= i < j < before.len() ==> (#[trigger] before[i]).key@ != (#[trigger] before[j]).key@,
        after == before.update(at, Row { key: before[at].key, value }),
    ensures
        forall|i: int, j: int|
            0 <= i < j < after.len() ==> (#[trigger] after[i]).key@ != (#[trigger] after[j]).key@,
        forall|k: Seq<char>| #[trigger] has_key(after, k) == has_key(before, k),
        forall|k: Seq<char>|
            has_key(before, k) ==> #[trigger] after[row_of(after, k)].value == (if k
                == before[at].key@ {
                value
            } else {
                before[row_of(before, k)].value
            }),
{
    assert forall|i: int, j: int| 0 <= i < j < after.len() implies (#[trigger] after[i]).key@ != (
    #[trigger] after[j]).key@ by {
        assert(before[i].key@ != before[j].key@);
    }
    assert forall|k: Seq<char>| #[trigger] has_key(after, k) == has_key(before, k) by {
        if has_key(after, k) {
            let i = row_of(after, k);
            assert(before[i].key@ == k);
        }
        if has_key(before, k) {
            let i = row_of(before, k);
            assert(after[i].key@ == k);
        }
    }
    assert forall|k: Seq<char>| has_key(before, k) implies #[trigger] after[row_of(after, k)].value
        == (if k == before[at].key@ {
        value
    } else {
        before[row_of(before, k)].value
    }) by {
        let i = row_of(before, k);
        assert(after[i].key@ == k);
        lemma_unique(after, i);
        lemma_unique(before, i);
        lemma_unique(before, at);
    }
}

proof fn lemma_row_added<V>(before: Seq<Row<V>>, after: Seq<Row<V>>, key: Seq<char>, value: V)
    requires
        !has_key(before, key),
        forall|i: int, j: int|
            0 <= i < j < before.len() ==> (#[trigger] before[i]).key@ != (#[trigger] before[j]).key@,
        after.len() == before.len() + 1,
        forall|i: int| 0 <= i < before.len() ==> #[trigger] after[i] == before[i],
        after[before.len() as int].key@ == key,
        after[before.len() as int].value == value,
    ensures
        forall|i: int, j: int|
            0 <= i < j < after.len() ==> (#[trigger] after[i]).key@ != (#[trigger] after[j]).key@,
        forall|k: Seq<char>| #[trigger] has_key(after, k) == (has_key(before, k) || k == key),
        forall|k: Seq<char>|
            has_key(after, k) ==> #[trigger] after[row_of(after, k)].value == (if k == key {
                value
            } else {
                before[row_of(before, k)].value
            }),
{
    assert forall|i: int, j: int| 0 <= i < j < after.len() implies (#[trigger] after[i]).key@ != (
    #[trigger] after[j]).key@ by {
        assert(after[i] == before[i]);
        if j < before.len() {
            assert(before[i].key@ != before[j].key@);
        }
    }
    assert forall|k: Seq<char>| #[trigger] has_key(after, k) == (has_key(before, k) || k == key) by {
        if has_key(after, k) {
            let i = row_of(after, k);
            if i < before.len() {
                assert(before[i].key@ == k);
            }
        }
        if has_key(before, k) {
            let i = row_of(before, k);
            assert(after[i].key@ == k);
        }
    }
    assert forall|k: Seq<char>| has_key(after, k) implies #[trigger] after[row_of(after, k)].value
        == (if k == key {
        value
    } else {
        before[row_of(before, k)].value
    }) by {
        if k == key {
            lemma_unique(after, before.len() as int);
        } else {
            let i = row_of(before, k);
            assert(has_key(before, k));
            assert(after[i].key@ == k);
            lemma_unique(after, i);
        }
    }
}

proof fn lemma_row_removed<V>(before: Seq<Row<V>>, after: Seq<Row<V>>, at: int)
    requires
        0 <= at < before.len(),
        forall|i: int, j: int|
            0 <= i < j < before.len() ==> (#[trigger] before[i]).key@ != (#[trigger] before[j]).key@,
        after == before.remove(at),
    ensures
        forall|i: int, j: int|
            0 <= i < j < after.len() ==> (#[trigger] after[i]).key@ != (#[trigger] after[j]).key@,
        forall|k: Seq<char>| #[trigger]
            has_key(after, k) == (has_key(before, k) && k != before[at].key@),
        forall|k: Seq<char>|
            has_key(after, k) ==> #[trigger] after[row_of(after, k)].value == before[row_of(
                before,
                k,
            )].value,
{
    assert forall|i: int, j: int| 0 <= i < j < after.len() implies (#[trigger] after[i]).key@ != (
    #[trigger] after[j]).key@ by {
        let bi = if i < at {
            i
        } else {
            i + 1
        };
        let bj = if j < at {
            j
        } else {
            j + 1
        };
        assert(before[bi].key@ != before[bj].key@);
    }
    assert forall|k: Seq<char>| #[trigger] has_key(after, k) == (has_key(before, k) && k
        != before[at].key@) by {
        if has_key(after, k) {
            let i = row_of(after, k);
            let bi = if i < at {
                i
            } else {
                i + 1
            };
            assert(before[bi].key@ == k);
            lemma_unique(before, bi);
            lemma_unique(before, at);
        }
        if has_key(before, k) && k != before[at].key@ {
            let i = row_of(before, k);
            let ai = if i < at {
                i
            } else {
                i - 1
            };
            assert(after[ai].key@ == k);
        }
    }
    assert forall|k: Seq<char>| has_key(after, k) implies #[trigger] after[row_of(after, k)].value
        == before[row_of(before, k)].value by {
        let i = row_of(after, k);
        let bi = if i < at {
            i
        } else {
            i + 1
        };
        assert(before[bi].key@ == k);
        lemma_unique(before, bi);
    }
}

// ── Questions ──────────────────────────────────────────────────────────────

/// One answer that the agent offers.
pub struct UserInputOption {
    pub label: String,
    pub description: Option<String>,
}

/// One question that the agent asks.
pub struct UserInputQuestion {
    pub id: String,
    pub header: String,
    pub question: String,
    pub options: Vec<UserInputOption>,
    pub multi_select: bool,
}

/// A round of questions and what the user has answered.
pub struct PendingUserInput {
    pub request_id: String,
    pub questions: Vec<UserInputQuestion>,
    pub question_index: usize,
    /// The labels chosen for each question.
    pub selections: Table<Vec<String>>,
    /// The texts of the user's own.
    pub custom_answers: Table<String>,
}

/// What has been answered so far.
#[verifier::ext_equal]
pub struct AnswersView {
    pub selections: Map<Seq<char>, Seq<Seq<char>>>,
    pub custom: Map<Seq<char>, Seq<char>>,
}

/// A round of questions as the contracts see it.
#[verifier::ext_equal]
pub struct UserInputView {
    pub request_id: Seq<char>,
    pub questions: Seq<UserInputQuestion>,
    pub question_index: usize,
    pub answers: AnswersView,
}

impl View for PendingUserInput {
    type V = UserInputView;

    open spec fn view(&self) -> UserInputView {
        UserInputView {
            request_id: self.request_id@,
            questions: self.questions@,
            question_index: self.question_index,
            answers: AnswersView {
                selections: self.selections@.map_values(
                    |chosen: Vec<String>| text::texts_view(chosen@),
                ),
                custom: self.custom_answers@.map_values(|answer: String| answer@),
            },
        }
    }
}

impl UserInputView {
    /// A round that has just been asked.
    pub open spec fn asked(request_id: Seq<char>, questions: Seq<UserInputQuestion>) -> UserInputView {
        UserInputView {
            request_id,
            questions,
            question_index: 0,
            answers: AnswersView { selections: Map::empty(), custom: Map::empty() },
        }
    }

    /// The identity of the question on screen.
    pub open spec fn current(self) -> Option<Seq<char>> {
        if self.question_index < self.questions.len() {
            Some(self.questions[self.question_index as int].id@)
        } else {
            None
        }
    }

    /// The labels chosen for a question.
    pub open spec fn chosen(self, question: Seq<char>) -> Seq<Seq<char>> {
        if self.answers.selections.dom().contains(question) {
            self.answers.selections[question]
        } else {
            Seq::empty()
        }
    }

    /// Whether the question on screen has an answer.
    pub open spec fn answered(self, question: Seq<char>) -> bool {
        ||| self.answers.custom.dom().contains(question) && !text::blank(
            self.answers.custom[question],
        )
        ||| self.chosen(question).len() > 0
    }

    /// The round after the user typed a text for the question on screen: it
    /// replaces the choice, and a blank text is none.
    pub open spec fn typed(self, answer: Seq<char>) -> UserInputView {
        match self.current() {
            None => self,
            Some(question) => UserInputView {
                answers: if text::blank(answer) {
                    AnswersView { custom: self.answers.custom.remove(question), ..self.answers }
                } else {
                    AnswersView {
                        custom: self.answers.custom.insert(question, answer),
                        selections: self.answers.selections.remove(question),
                    }
                },
                ..self
            },
        }
    }

    /// The labels chosen for a question after `label` was picked: it toggles
    /// where several may be chosen, and stands alone otherwise.
    pub open spec fn picked(self, question: int, label: Seq<char>) -> Seq<Seq<char>> {
        let before = self.chosen(self.questions[question].id@);
        if !self.questions[question].multi_select {
            seq![label]
        } else if before.contains(label) {
            before.remove(before.index_of_first(label)->0)
        } else {
            before.push(label)
        }
    }

    /// The round after `label` was picked for the question on screen: it
    /// replaces the user's own text.
    pub open spec fn selected(self, label: Seq<char>) -> UserInputView {
        match self.current() {
            None => self,
            Some(question) => {
                let chosen = self.picked(self.question_index as int, label);
                UserInputView {
                    answers: AnswersView {
                        selections: if chosen.len() == 0 {
                            self.answers.selections.remove(question)
                        } else {
                            self.answers.selections.insert(question, chosen)
                        },
                        custom: self.answers.custom.remove(question),
                    },
                    ..self
                }
            },
        }
    }

    /// What is sent for one question: the user's own text, else the choice.
    pub open spec fn answer(self, question: Seq<char>) -> Seq<Seq<char>> {
        if self.answers.custom.dom().contains(question) {
            seq![self.answers.custom[question]]
        } else {
            self.chosen(question)
        }
    }
}

/// What is sent for one question.
pub struct UserInputAnswer {
    pub question_id: String,
    pub answers: Vec<String>,
}

/// What moving on from a question leads to.
#[derive(Clone, Copy, Debug, PartialEq, Eq, Structural)]
pub enum Advance {
    /// The question on screen has no answer yet.
    Unanswered,
    /// The next question is on screen.
    Next,
    /// Every question has been passed: the answers are sent.
    Submit,
}

impl PendingUserInput {
    /// The tables hold each question once.
    pub open spec fn wf(&self) -> bool {
        self.selections.wf() && self.custom_answers.wf()
    }

    /// A round that has just been asked.
    pub fn new(request_id: String, questions: Vec<UserInputQuestion>) -> (pending: PendingUserInput)
        ensures
            pending.wf(),
            pending@ == UserInputView::asked(request_id@, questions@),
    {
        let pending = PendingUserInput {
            request_id,
            questions,
            question_index: 0,
            selections: Table::new(),
            custom_answers: Table::new(),
        };
        assert(pending@ =~= UserInputView::asked(request_id@, questions@));
        pending
    }

    /// The question on screen.
    pub fn current_question(&self) -> (question: Option<&UserInputQuestion>)
        ensures
            match question {
                Some(question) => self@.current() == Some(question.id@) && *question
                    == self.questions@[self.question_index as int],
                None => self@.current() is None,
            },
    {
        if self.question_index < self.questions.len() {
            Some(&self.questions[self.question_index])
        } else {
            None
        }
    }

    /// The user's own text for the question on screen, to show in the field.
    pub fn current_answer(&self) -> (answer: String)
        requires
            self.wf(),
        ensures
            answer@ == (match self@.current() {
                Some(question) => if self@.answers.custom.dom().contains(question) {
                    self@.answers.custom[question]
                } else {
                    Seq::empty()
                },
                None => Seq::empty(),
            }),
    {
        match self.current_question() {
            Some(question) => {
                match self.custom_answers.get(question.id.as_str()) {
                    Some(answer) => answer.clone(),
                    None => String::new(),
                }
            },
            None => String::new(),
        }
    }

    /// Take the user's own text for the question on screen.
    pub fn update_custom_answer(&mut self, answer: String)
        requires
            old(self).wf(),
        ensures
            final(self).wf(),
            final(self)@ == old(self)@.typed(answer@),
    {
        let ghost before = self@;
        let id: String = match self.current_question() {
            Some(question) => question.id.clone(),
            None => {
                return;
            },
        };
        if text::is_blank(answer.as_str()) {
            self.custom_answers.remove(id.as_str());
        } else {
            self.selections.remove(id.as_str());
            self.custom_answers.insert(id, answer);
        }
        assert(self@.answers.custom =~= before.typed(answer@).answers.custom);
        assert(self@.answers.selections =~= before.typed(answer@).answers.selections);
    }

    /// Pick an option for the question on screen.
    pub fn select_option(&mut self, label: String)
        requires
            old(self).wf(),
        ensures
            final(self).wf(),
            final(self)@ == old(self)@.selected(label@),
    {
        let ghost before = self@;
        let ghost picked = label@;
        if self.question_index >= self.questions.len() {
            return;
        }
        let id: String = self.questions[self.question_index].id.clone();
        let multi_select: bool = self.questions[self.question_index].multi_select;
        let mut chosen: Vec<String> = Vec::new();
        if multi_select {
            match self.selections.get(id.as_str()) {
                Some(earlier) => {
                    chosen = text::copy_texts(earlier);
                },
                None => {},
            }
            assert(text::texts_view(chosen@) =~= before.chosen(id@));
            let ghost labels = text::texts_view(chosen@);
            match find_text(&chosen, label.as_str()) {
                Some(i) => {
                    chosen.remove(i);
                    assert(text::texts_view(chosen@) =~= labels.remove(i as int));
                },
                None => {
                    chosen.push(label);
                    assert(text::texts_view(chosen@) =~= labels.push(picked));
                },
            }
        } else {
            chosen.push(label);
            assert(text::texts_view(chosen@) =~= seq![picked]);
        }
        let ghost labels = text::texts_view(chosen@);
        assert(labels == before.picked(before.question_index as int, picked));
        self.custom_answers.remove(id.as_str());
        if chosen.is_empty() {
            self.selections.remove(id.as_str());
        } else {
            self.selections.insert(id, chosen);
        }
        assert(self@.answers.custom =~= before.selected(picked).answers.custom);
        assert(self@.answers.selections =~= before.selected(picked).answers.selections);
    }

    /// Go back to the question before; `false` on the first one.
    pub fn previous(&mut self) -> (moved: bool)
        ensures
            moved == (old(self).question_index > 0),
            final(self)@ == (UserInputView {
                question_index: if moved {
                    (old(self).question_index - 1) as usize
                } else {
                    old(self).question_index
                },
                ..old(self)@
            }),
            old(self).wf() ==> final(self).wf(),
    {
        if self.question_index == 0 {
            return false;
        }
        self.question_index = self.question_index - 1;
        true
    }

    /// Move on from the question on screen. An answer is needed to do so.
    pub fn advance(&mut self) -> (advance: Advance)
        requires
            old(self).wf(),
        ensures
            final(self).wf(),
            advance == (match old(self)@.current() {
                None => Advance::Unanswered,
                Some(question) => if !old(self)@.answered(question) {
                    Advance::Unanswered
                } else if old(self).question_index + 1 < old(self).questions@.len() {
                    Advance::Next
                } else {
                    Advance::Submit
                },
            }),
            final(self)@ == (UserInputView {
                question_index: if advance == Advance::Next {
                    (old(self).question_index + 1) as usize
                } else {
                    old(self).question_index
                },
                ..old(self)@
            }),
    {
        let count: usize = self.questions.len();
        if self.question_index >= count {
            return Advance::Unanswered;
        }
        let id: String = self.questions[self.question_index].id.clone();
        let typed: bool = match self.custom_answers.get(id.as_str()) {
            Some(answer) => !text::is_blank(answer.as_str()),
            None => false,
        };
        let chosen: bool = match self.selections.get(id.as_str()) {
            Some(labels) => !labels.is_empty(),
            None => false,
        };
        if !typed && !chosen {
            return Advance::Unanswered;
        }
        if self.question_index < count - 1 {
            self.question_index = self.question_index + 1;
            Advance::Next
        } else {
            Advance::Submit
        }
    }

    /// What is sent, question by question in the order they were asked.
    pub fn answers(&self) -> (answers: Vec<UserInputAnswer>)
        requires
            self.wf(),
        ensures
            answers@.len() == self.questions@.len(),
            forall|i: int|
                0 <= i < answers@.len() ==> (#[trigger] answers@[i]).question_id@
                    == self.questions@[i].id@ && text::texts_view(answers@[i].answers@)
                    == self@.answer(self.questions@[i].id@),
    {
        let mut answers: Vec<UserInputAnswer> = Vec::new();
        let mut i: usize = 0;
        while i < self.questions.len()
            invariant
                i <= self.questions@.len(),
                self.wf(),
                answers@.len() == i,
                forall|k: int|
                    0 <= k < i ==> (#[trigger] answers@[k]).question_id@ == self.questions@[k].id@
                        && text::texts_view(answers@[k].answers@) == self@.answer(
                        self.questions@[k].id@,
                    ),
            decreases self.questions@.len() - i,
        {
            let id: String = self.questions[i].id.clone();
            let mut given: Vec<String> = Vec::new();
            match self.custom_answers.get(id.as_str()) {
                Some(answer) => {
                    given.push(answer.clone());
                    assert(text::texts_view(given@) =~= self@.answer(id@));
                },
                None => {
                    if let Some(labels) = self.selections.get(id.as_str()) {
                        given = text::copy_texts(labels);
                    }
                    assert(text::texts_view(given@) =~= self@.answer(id@));
                },
            }
            answers.push(UserInputAnswer { question_id: id, answers: given });
            i += 1;
        }
        answers
    }
}

fn find_text(texts: &Vec<String>, wanted: &str) -> (found: Option<usize>)
    ensures
        match found {
            Some(i) => i < texts@.len() && text::texts_view(texts@).contains(wanted@)
                && text::texts_view(texts@).index_of_first(wanted@) == Some(i as int),
            None => !text::texts_view(texts@).contains(wanted@),
        },
{
    let ghost views = text::texts_view(texts@);
    let mut i: usize = 0;
    while i < texts.len()
        invariant
            i <= texts@.len(),
            views == text::texts_view(texts@),
            forall|k: int| 0 <= k < i ==> #[trigger] views[k] != wanted@,
        decreases texts@.len() - i,
    {
        assert(views[i as int] == texts@[i as int]@);
        if text::same(texts[i].as_str(), wanted) {
            proof {
                assert(views.contains(wanted@));
                views.index_of_first_ensures(wanted@);
                let first = views.index_of_first(wanted@)->0;
                assert(first >= i);
                assert(first <= i);
            }
            return Some(i);
        }
        i += 1;
    }
    None
}

/// A text of the user's own and a choice never stand for the same question
/// at once, whichever came last.
pub proof fn the_last_answer_stands_alone(pending: UserInputView, answer: Seq<char>, label: Seq<char>)
    requires
        pending.current() is Some,
    ensures
        !text::blank(answer) ==> !pending.typed(answer).answers.selections.dom().contains(
            pending.current()->0,
        ),
        !pending.selected(label).answers.custom.dom().contains(pending.current()->0),
{
}

} // verus!
