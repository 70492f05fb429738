//! What a message's row shows: its body, its attachments, the controls below
//! it and its menu; and the marks that say that something has been copied.
use crate::activity;
use crate::i18n;
use crate::i18n::Catalog;
use crate::model::{AttachmentView, Id, Message, MessageRole, MessageView};
use crate::sidebar;
use crate::sidebar_view;
use crate::text;
use crate::user_input::Table;
use std::collections::HashMap;
use vstd::prelude::*;

verus! {

broadcast use vstd::std_specs::hash::group_hash_axioms;

// ── Copied marks ───────────────────────────────────────────────────────────

/// The controls that show that they have copied something.
pub struct CopiedControls {
    pub marks: Table<u64>,
    pub generation: u64,
}

impl CopiedControls {
    /// No control stands twice.
    pub open spec fn wf(&self) -> bool {
        self.marks.wf()
    }

    /// Nothing has been copied.
    pub fn new() -> (copied: CopiedControls)
        ensures
            copied.wf(),
            copied.marks@ == Map::<Seq<char>, u64>::empty(),
            copied.generation == 0,
    {
        CopiedControls { marks: Table::new(), generation: 0 }
    }

    /// Whether a control shows that it has copied something.
    pub fn control_was_copied(&self, control: &str) -> (copied: bool)
        requires
            self.wf(),
        ensures
            copied == self.marks@.dom().contains(control@),
    {
        self.marks.get(control).is_some()
    }

    /// Mark a control, until the mark of this generation expires.
    pub fn show_control_copied(&mut self, control: &str) -> (generation: u64)
        requires
            old(self).wf(),
        ensures
            final(self).wf(),
            generation == old(self).generation.wrapping_add(1),
            final(self).generation == generation,
            final(self).marks@ == old(self).marks@.insert(control@, generation),
    {
        let generation: u64 = self.generation.wrapping_add(1);
        self.generation = generation;
        self.marks.insert(text::owned(control), generation);
        generation
    }

    /// The mark of a generation has been shown long enough: it goes, unless a
    /// later one has taken its place. Whether it went.
    pub fn expire_control(&mut self, control: &str, generation: u64) -> (gone: bool)
        requires
            old(self).wf(),
        ensures
            final(self).wf(),
            final(self).generation == old(self).generation,
            gone == (old(self).marks@.dom().contains(control@) && old(self).marks@[control@]
                == generation),
            final(self).marks@ == (if gone {
                old(self).marks@.remove(control@)
            } else {
                old(self).marks@
            }),
    {
        let current = match self.marks.get(control) {
            Some(mark) => *mark == generation,
            None => false,
        };
        if current {
            self.marks.remove(control);
        }
        current
    }
}

/// The messages that show that they have been copied.
pub struct CopiedMessages {
    pub marks: HashMap<Id, u64>,
    pub generation: u64,
}

impl CopiedMessages {
    /// Nothing has been copied.
    pub fn new() -> (copied: CopiedMessages)
        ensures
            copied.marks@ == Map::<Id, u64>::empty(),
            copied.generation == 0,
    {
        CopiedMessages { marks: HashMap::new(), generation: 0 }
    }

    /// Mark a message, until the mark of this generation expires.
    pub fn show_message_copied(&mut self, message_id: Id) -> (generation: u64)
        ensures
            generation == old(self).generation.wrapping_add(1),
            final(self).generation == generation,
            final(self).marks@ == old(self).marks@.insert(message_id, generation),
    {
        let generation: u64 = self.generation.wrapping_add(1);
        self.generation = generation;
        self.marks.insert(message_id, generation);
        generation
    }

    /// The mark of a generation has been shown long enough: it goes, unless a
    /// later one has taken its place. Whether it went.
    pub fn expire_message(&mut self, message_id: Id, generation: u64) -> (gone: bool)
        ensures
            final(self).generation == old(self).generation,
            gone == (old(self).marks@.dom().contains(message_id) && old(self).marks@[message_id]
                == generation),
            final(self).marks@ == (if gone {
                old(self).marks@.remove(message_id)
            } else {
                old(self).marks@
            }),
    {
        let current = match self.marks.get(&message_id) {
            Some(mark) => *mark == generation,
            None => false,
        };
        if current {
            self.marks.remove(&message_id);
        }
        current
    }
}

// ── The controls below a message ───────────────────────────────────────────

/// What can be done with an answer: another task can take the conversation
/// up behind it.
#[derive(Clone, Copy, Debug, PartialEq, Eq, Structural)]
pub struct AssistantMessageAction {
    pub session_id: Id,
    pub turn_count: usize,
    pub enabled: bool,
    pub preparing: bool,
}

/// What can be done with a prompt: the conversation can go back to it.
#[derive(Clone, Copy, Debug, PartialEq, Eq, Structural)]
pub struct UserMessageAction {
    pub session_id: Id,
    pub message_id: Id,
}

/// One control below a message.
pub enum FooterControl {
    Time { label: String },
    Copy { id: String, icon: String, tooltip: String },
    /// The fork of a task; whether it is being prepared, can be pressed, and
    /// is dimmed.
    Fork { id: String, spinning: bool, enabled: bool, dimmed: bool, tooltip: String },
    Undo { id: String, tooltip: String },
    Rewind { id: String, tooltip: String },
}

pub enum FooterControlView {
    Time { label: Seq<char> },
    Copy { id: Seq<char>, icon: Seq<char>, tooltip: Seq<char> },
    Fork { id: Seq<char>, spinning: bool, enabled: bool, dimmed: bool, tooltip: Seq<char> },
    Undo { id: Seq<char>, tooltip: Seq<char> },
    Rewind { id: Seq<char>, tooltip: Seq<char> },
}

impl View for FooterControl {
    type V = FooterControlView;

    open spec fn view(&self) -> FooterControlView {
        match self {
            FooterControl::Time { label } => FooterControlView::Time { label: label@ },
            FooterControl::Copy { id, icon, tooltip } => FooterControlView::Copy {
                id: id@,
                icon: icon@,
                tooltip: tooltip@,
            },
            FooterControl::Fork { id, spinning, enabled, dimmed, tooltip } => {
                FooterControlView::Fork {
                    id: id@,
                    spinning: *spinning,
                    enabled: *enabled,
                    dimmed: *dimmed,
                    tooltip: tooltip@,
                }
            },
            FooterControl::Undo { id, tooltip } => FooterControlView::Undo {
                id: id@,
                tooltip: tooltip@,
            },
            FooterControl::Rewind { id, tooltip } => FooterControlView::Rewind {
                id: id@,
                tooltip: tooltip@,
            },
        }
    }
}

/// The views of the controls.
pub open spec fn controls_view(controls: Seq<FooterControl>) -> Seq<FooterControlView> {
    controls.map_values(|control: FooterControl| control@)
}

/// The control that copies a message.
pub open spec fn copy_control(
    entries: Seq<(Seq<char>, Seq<char>)>,
    message_id: Id,
    copied: bool,
) -> FooterControlView {
    FooterControlView::Copy {
        id: "copy-message-"@ + sidebar::id_text(message_id),
        icon: if copied {
            "icons/check.svg"@
        } else {
            "icons/copy.svg"@
        },
        tooltip: i18n::plain(
            entries,
            if copied {
                "common.copied"@
            } else {
                "common.copy_message"@
            },
        ),
    }
}

/// The control that forks the task behind an answer.
pub open spec fn fork_control(
    entries: Seq<(Seq<char>, Seq<char>)>,
    message_id: Id,
    action: AssistantMessageAction,
) -> FooterControlView {
    FooterControlView::Fork {
        id: "fork-response-"@ + sidebar::id_text(message_id),
        spinning: action.preparing,
        enabled: action.enabled,
        dimmed: !action.enabled && !action.preparing,
        tooltip: i18n::plain(
            entries,
            if action.enabled {
                "session.fork_task"@
            } else {
                "session.forking_task"@
            },
        ),
    }
}

/// The controls below a message, from left to right. On the right of the
/// transcript the time comes first, on the left it comes last; a prompt that
/// can be gone back to has two more.
pub open spec fn footer_controls(
    entries: Seq<(Seq<char>, Seq<char>)>,
    message_id: Id,
    time_label: Seq<char>,
    copied: bool,
    align_right: bool,
    assistant_action: Option<AssistantMessageAction>,
    user_action: Option<UserMessageAction>,
) -> Seq<FooterControlView> {
    let time = FooterControlView::Time { label: time_label };
    let copy = copy_control(entries, message_id, copied);
    let forks = match assistant_action {
        Some(action) => seq![fork_control(entries, message_id, action)],
        None => Seq::empty(),
    };
    let rewinds = match user_action {
        Some(_) => seq![
            FooterControlView::Undo {
                id: "user-message-undo-"@ + sidebar::id_text(message_id),
                tooltip: i18n::plain(entries, "session.undo_turn"@),
            },
            FooterControlView::Rewind {
                id: "user-message-action-"@ + sidebar::id_text(message_id),
                tooltip: i18n::plain(entries, "session.revert_to_here"@),
            },
        ],
        None => Seq::empty(),
    };
    (if align_right {
        seq![time, copy]
    } else {
        seq![copy] + forks + seq![time]
    }) + rewinds
}

fn push_control(controls: &mut Vec<FooterControl>, control: FooterControl)
    ensures
        controls_view(final(controls)@) == controls_view(old(controls)@).push(control@),
{
    let ghost before = controls_view(controls@);
    let ghost added = control@;
    controls.push(control);
    assert(controls_view(controls@) =~= before.push(added));
}

/// The controls below a message, from left to right.
pub fn message_footer(
    catalog: &Catalog,
    message_id: Id,
    time_label: String,
    copied: bool,
    align_right: bool,
    assistant_action: Option<AssistantMessageAction>,
    user_action: Option<UserMessageAction>,
) -> (controls: Vec<FooterControl>)
    ensures
        controls_view(controls@) == footer_controls(
            catalog@,
            message_id,
            time_label@,
            copied,
            align_right,
            assistant_action,
            user_action,
        ),
{
    let id = sidebar::format_id(message_id);
    let ghost label = time_label@;
    let time = FooterControl::Time { label: time_label };
    let copy = FooterControl::Copy {
        id: text::prefixed("copy-message-", id.as_str()),
        icon: if copied {
            text::owned("icons/check.svg")
        } else {
            text::owned("icons/copy.svg")
        },
        tooltip: if copied {
            catalog.text("common.copied")
        } else {
            catalog.text("common.copy_message")
        },
    };
    let mut controls: Vec<FooterControl> = Vec::new();
    assert(controls_view(controls@) =~= Seq::<FooterControlView>::empty());
    if align_right {
        push_control(&mut controls, time);
        push_control(&mut controls, copy);
    } else {
        push_control(&mut controls, copy);
        if let Some(action) = assistant_action {
            push_control(
                &mut controls,
                FooterControl::Fork {
                    id: text::prefixed("fork-response-", id.as_str()),
                    spinning: action.preparing,
                    enabled: action.enabled,
                    dimmed: !action.enabled && !action.preparing,
                    tooltip: if action.enabled {
                        catalog.text("session.fork_task")
                    } else {
                        catalog.text("session.forking_task")
                    },
                },
            );
        }
        push_control(&mut controls, time);
    }
    if user_action.is_some() {
        push_control(
            &mut controls,
            FooterControl::Undo {
                id: text::prefixed("user-message-undo-", id.as_str()),
                tooltip: catalog.text("session.undo_turn"),
            },
        );
        push_control(
            &mut controls,
            FooterControl::Rewind {
                id: text::prefixed("user-message-action-", id.as_str()),
                tooltip: catalog.text("session.revert_to_here"),
            },
        );
    }
    assert(controls_view(controls@) =~= footer_controls(
        catalog@,
        message_id,
        label,
        copied,
        align_right,
        assistant_action,
        user_action,
    ));
    controls
}

// ── A message's row ────────────────────────────────────────────────────────

/// What is below a message: when it is from and what its copy control copies.
pub struct FooterPlan {
    pub time: u64,
    pub copy_content: String,
    pub align_right: bool,
    pub assistant_action: Option<AssistantMessageAction>,
    pub user_action: Option<UserMessageAction>,
}

pub struct FooterPlanView {
    pub time: u64,
    pub copy_content: Seq<char>,
    pub align_right: bool,
    pub assistant_action: Option<AssistantMessageAction>,
    pub user_action: Option<UserMessageAction>,
}

impl View for FooterPlan {
    type V = FooterPlanView;

    open spec fn view(&self) -> FooterPlanView {
        FooterPlanView {
            time: self.time,
            copy_content: self.copy_content@,
            align_right: self.align_right,
            assistant_action: self.assistant_action,
            user_action: self.user_action,
        }
    }
}

/// The view of an optional footer.
pub open spec fn footer_view(footer: Option<FooterPlan>) -> Option<FooterPlanView> {
    match footer {
        Some(footer) => Some(footer@),
        None => None,
    }
}

/// What a message's row consists of.
pub enum MessageBody {
    /// A prompt on the right.
    Prompt { shows_attachments: bool, shows_text: bool, footer: Option<FooterPlan> },
    /// A prompt that is being edited, and whether it can be sent.
    Editing { shows_attachments: bool, can_submit: bool },
    /// An answer on the left.
    Answer { footer: Option<FooterPlan> },
    /// A note in the middle.
    Note,
}

pub enum MessageBodyView {
    Prompt { shows_attachments: bool, shows_text: bool, footer: Option<FooterPlanView> },
    Editing { shows_attachments: bool, can_submit: bool },
    Answer { footer: Option<FooterPlanView> },
    Note,
}

impl View for MessageBody {
    type V = MessageBodyView;

    open spec fn view(&self) -> MessageBodyView {
        match self {
            MessageBody::Prompt { shows_attachments, shows_text, footer } => {
                MessageBodyView::Prompt {
                    shows_attachments: *shows_attachments,
                    shows_text: *shows_text,
                    footer: footer_view(*footer),
                }
            },
            MessageBody::Editing { shows_attachments, can_submit } => MessageBodyView::Editing {
                shows_attachments: *shows_attachments,
                can_submit: *can_submit,
            },
            MessageBody::Answer { footer } => MessageBodyView::Answer {
                footer: footer_view(*footer),
            },
            MessageBody::Note => MessageBodyView::Note,
        }
    }
}

/// What a message's row shows.
pub struct MessageRow {
    pub content: String,
    /// What the row's menu copies.
    pub menu_copy_content: String,
    /// The name that the footer appears by when the row is hovered.
    pub group_name: Option<String>,
    pub menu_id: String,
    pub body: MessageBody,
}

pub struct MessageRowView {
    pub content: Seq<char>,
    pub menu_copy_content: Seq<char>,
    pub group_name: Option<Seq<char>>,
    pub menu_id: Seq<char>,
    pub body: MessageBodyView,
}

impl View for MessageRow {
    type V = MessageRowView;

    open spec fn view(&self) -> MessageRowView {
        MessageRowView {
            content: self.content@,
            menu_copy_content: self.menu_copy_content@,
            group_name: text::text_view(self.group_name),
            menu_id: self.menu_id@,
            body: self.body@,
        }
    }
}

/// What else decides what a message's row shows.
pub struct MessageContext {
    /// What the footer of an answer copies, where the message carries one.
    pub footer_copy_content: Option<String>,
    pub footer_time: Option<u64>,
    pub assistant_action: Option<AssistantMessageAction>,
    pub user_action: Option<UserMessageAction>,
    /// The text of the editor, where the message is being edited.
    pub edit_input: Option<String>,
}

/// What a message's row consists of.
pub open spec fn body_shown(message: MessageView, context: MessageContext) -> MessageBodyView {
    let content = message.visible();
    let has_attachments = message.attachments.len() > 0;
    match message.role {
        MessageRole::User => match context.edit_input {
            Some(input) => MessageBodyView::Editing {
                shows_attachments: has_attachments,
                can_submit: !text::blank(input@) || has_attachments,
            },
            None => MessageBodyView::Prompt {
                shows_attachments: has_attachments,
                shows_text: !text::blank(content),
                footer: Some(
                    FooterPlanView {
                        time: message.created_at,
                        copy_content: content,
                        align_right: true,
                        assistant_action: None,
                        user_action: context.user_action,
                    },
                ),
            },
        },
        MessageRole::Assistant => MessageBodyView::Answer {
            footer: match context.footer_copy_content {
                Some(copy_content) => if message.turn_id is None {
                    Some(
                        FooterPlanView {
                            time: match context.footer_time {
                                Some(time) => time,
                                None => message.created_at,
                            },
                            copy_content: copy_content@,
                            align_right: false,
                            assistant_action: context.assistant_action,
                            user_action: None,
                        },
                    )
                } else {
                    None
                },
                None => None,
            },
        },
        MessageRole::System => MessageBodyView::Note,
    }
}

/// What a message's row shows. The menu of the last part of an answer copies
/// the whole visible answer, as its footer does. Only an answer without a turn
/// has its footer in its own row.
pub open spec fn row_shown(message: MessageView, context: MessageContext) -> MessageRowView {
    let content = message.visible();
    let id = sidebar::id_text(message.id);
    MessageRowView {
        content,
        menu_copy_content: match context.footer_copy_content {
            Some(copy_content) => copy_content@,
            None => content,
        },
        group_name: match message.role {
            MessageRole::User => Some("user-message-"@ + id),
            MessageRole::Assistant => Some("assistant-message-"@ + id),
            MessageRole::System => None,
        },
        menu_id: "message-menu-"@ + id,
        body: body_shown(message, context),
    }
}

fn message_body(message: &Message, context: &MessageContext) -> (body: MessageBody)
    ensures
        body@ == body_shown(message@, *context),
{
    assert(message@.attachments.len() == message.attachments@.len());
    let has_attachments = !message.attachments.is_empty();
    match message.role {
        MessageRole::User => match &context.edit_input {
            Some(input) => MessageBody::Editing {
                shows_attachments: has_attachments,
                can_submit: !text::is_blank(input.as_str()) || has_attachments,
            },
            None => MessageBody::Prompt {
                shows_attachments: has_attachments,
                shows_text: !text::is_blank(message.visible_content()),
                footer: Some(
                    FooterPlan {
                        time: message.created_at,
                        copy_content: text::owned(message.visible_content()),
                        align_right: true,
                        assistant_action: None,
                        user_action: context.user_action,
                    },
                ),
            },
        },
        MessageRole::Assistant => MessageBody::Answer {
            footer: match &context.footer_copy_content {
                Some(copy_content) => if message.turn_id.is_none() {
                    Some(
                        FooterPlan {
                            time: match context.footer_time {
                                Some(time) => time,
                                None => message.created_at,
                            },
                            copy_content: copy_content.clone(),
                            align_right: false,
                            assistant_action: context.assistant_action,
                            user_action: None,
                        },
                    )
                } else {
                    None
                },
                None => None,
            },
        },
        MessageRole::System => MessageBody::Note,
    }
}

/// What a message's row shows.
pub fn message_row(message: &Message, context: &MessageContext) -> (row: MessageRow)
    ensures
        row@ == row_shown(message@, *context),
{
    let id = sidebar::format_id(message.id);
    let content = text::owned(message.visible_content());
    let menu_copy_content = match &context.footer_copy_content {
        Some(copy_content) => copy_content.clone(),
        None => content.clone(),
    };
    MessageRow {
        content,
        menu_copy_content,
        group_name: match message.role {
            MessageRole::User => Some(text::prefixed("user-message-", id.as_str())),
            MessageRole::Assistant => Some(text::prefixed("assistant-message-", id.as_str())),
            MessageRole::System => None,
        },
        menu_id: text::prefixed("message-menu-", id.as_str()),
        body: message_body(message, context),
    }
}

// ── A message's menu ───────────────────────────────────────────────────────

/// One entry of a message's menu.
pub enum MessageMenuItem {
    /// Copies the selected text.
    CopySelection { label: String, text: String },
    CopyMessage { label: String },
    /// Puts the message into the composer.
    CopyToComposer { label: String },
    /// Copies the code of the message.
    CopyCode { label: String, code: String },
    Separator,
    Revert { label: String },
    Fork { label: String, enabled: bool },
}

pub enum MessageMenuView {
    CopySelection { label: Seq<char>, text: Seq<char> },
    CopyMessage { label: Seq<char> },
    CopyToComposer { label: Seq<char> },
    CopyCode { label: Seq<char>, code: Seq<char> },
    Separator,
    Revert { label: Seq<char> },
    Fork { label: Seq<char>, enabled: bool },
}

impl View for MessageMenuItem {
    type V = MessageMenuView;

    open spec fn view(&self) -> MessageMenuView {
        match self {
            MessageMenuItem::CopySelection { label, text } => MessageMenuView::CopySelection {
                label: label@,
                text: text@,
            },
            MessageMenuItem::CopyMessage { label } => MessageMenuView::CopyMessage {
                label: label@,
            },
            MessageMenuItem::CopyToComposer { label } => MessageMenuView::CopyToComposer {
                label: label@,
            },
            MessageMenuItem::CopyCode { label, code } => MessageMenuView::CopyCode {
                label: label@,
                code: code@,
            },
            MessageMenuItem::Separator => MessageMenuView::Separator,
            MessageMenuItem::Revert { label } => MessageMenuView::Revert { label: label@ },
            MessageMenuItem::Fork { label, enabled } => MessageMenuView::Fork {
                label: label@,
                enabled: *enabled,
            },
        }
    }
}

/// The views of the entries.
pub open spec fn menu_view(items: Seq<MessageMenuItem>) -> Seq<MessageMenuView> {
    items.map_values(|item: MessageMenuItem| item@)
}

/// The code of a text, block by block, where it holds any.
pub open spec fn code_in(content: Seq<char>) -> Option<Seq<char>> {
    let blocks = activity::code_blocks(activity::fence_segments(content, 0));
    if blocks.len() > 0 {
        Some(text::joined(blocks, "\n\n"@))
    } else {
        None
    }
}

/// The entries of a message's menu.
pub open spec fn menu_shown(
    entries: Seq<(Seq<char>, Seq<char>)>,
    content: Seq<char>,
    role: MessageRole,
    user_action: Option<UserMessageAction>,
    assistant_action: Option<AssistantMessageAction>,
    selected_text: Option<Seq<char>>,
) -> Seq<MessageMenuView> {
    let selection = match selected_text {
        Some(text) => seq![
            MessageMenuView::CopySelection {
                label: i18n::plain(entries, "common.copy_selection"@),
                text,
            },
        ],
        None => Seq::empty(),
    };
    let copy = seq![
        MessageMenuView::CopyMessage { label: i18n::plain(entries, "common.copy_message_title"@) },
    ];
    let compose = if role == MessageRole::User && user_action is None {
        seq![
            MessageMenuView::CopyToComposer {
                label: i18n::plain(entries, "common.copy_to_composer"@),
            },
        ]
    } else {
        Seq::empty()
    };
    let code = match code_in(content) {
        Some(code) => seq![
            MessageMenuView::CopyCode { label: i18n::plain(entries, "common.copy_code"@), code },
        ],
        None => Seq::empty(),
    };
    let revert = match user_action {
        Some(_) => seq![
            MessageMenuView::Separator,
            MessageMenuView::Revert {
                label: i18n::plain(entries, "session.revert_to_here_title"@),
            },
        ],
        None => Seq::empty(),
    };
    let fork = match assistant_action {
        Some(action) => seq![
            MessageMenuView::Separator,
            MessageMenuView::Fork {
                label: i18n::plain(
                    entries,
                    if action.enabled {
                        "session.fork_task_title"@
                    } else {
                        "session.forking_task_title"@
                    },
                ),
                enabled: action.enabled,
            },
        ],
        None => Seq::empty(),
    };
    selection + copy + compose + code + revert + fork
}

fn push_item(items: &mut Vec<MessageMenuItem>, item: MessageMenuItem)
    ensures
        menu_view(final(items)@) == menu_view(old(items)@).push(item@),
{
    let ghost before = menu_view(items@);
    let ghost added = item@;
    items.push(item);
    assert(menu_view(items@) =~= before.push(added));
}

/// The entries of a message's menu.
pub fn message_menu_items(
    catalog: &Catalog,
    content: &str,
    role: MessageRole,
    user_action: Option<UserMessageAction>,
    assistant_action: Option<AssistantMessageAction>,
    selected_text: Option<String>,
) -> (items: Vec<MessageMenuItem>)
    ensures
        menu_view(items@) == menu_shown(
            catalog@,
            content@,
            role,
            user_action,
            assistant_action,
            text::text_view(selected_text),
        ),
{
    let ghost selected = text::text_view(selected_text);
    let mut items: Vec<MessageMenuItem> = Vec::new();
    assert(menu_view(items@) =~= Seq::<MessageMenuView>::empty());
    if let Some(text) = selected_text {
        push_item(
            &mut items,
            MessageMenuItem::CopySelection { label: catalog.text("common.copy_selection"), text },
        );
    }
    push_item(
        &mut items,
        MessageMenuItem::CopyMessage { label: catalog.text("common.copy_message_title") },
    );
    if role == MessageRole::User && user_action.is_none() {
        push_item(
            &mut items,
            MessageMenuItem::CopyToComposer { label: catalog.text("common.copy_to_composer") },
        );
    }
    if let Some(code) = activity::fenced_code(content) {
        push_item(
            &mut items,
            MessageMenuItem::CopyCode { label: catalog.text("common.copy_code"), code },
        );
    }
    if user_action.is_some() {
        push_item(&mut items, MessageMenuItem::Separator);
        push_item(
            &mut items,
            MessageMenuItem::Revert { label: catalog.text("session.revert_to_here_title") },
        );
    }
    if let Some(action) = assistant_action {
        push_item(&mut items, MessageMenuItem::Separator);
        push_item(
            &mut items,
            MessageMenuItem::Fork {
                label: if action.enabled {
                    catalog.text("session.fork_task_title")
                } else {
                    catalog.text("session.forking_task_title")
                },
                enabled: action.enabled,
            },
        );
    }
    assert(menu_view(items@) =~= menu_shown(
        catalog@,
        content@,
        role,
        user_action,
        assistant_action,
        selected,
    ));
    items
}

// ── Attachments ────────────────────────────────────────────────────────────

/// What an attachment's tile shows.
#[derive(Clone, Copy, Debug, PartialEq, Eq, Structural)]
pub enum TileContent {
    /// The image itself; it can be enlarged.
    Image,
    /// An image that has not been loaded.
    ImagePending,
    Folder,
    /// A file, with the icon of its kind.
    File,
}

/// An attachment's tile.
pub struct AttachmentTile {
    pub id: String,
    pub menu_id: String,
    pub name: String,
    pub path: String,
    pub content: TileContent,
}

pub struct AttachmentTileView {
    pub id: Seq<char>,
    pub menu_id: Seq<char>,
    pub name: Seq<char>,
    pub path: Seq<char>,
    pub content: TileContent,
}

impl View for AttachmentTile {
    type V = AttachmentTileView;

    open spec fn view(&self) -> AttachmentTileView {
        AttachmentTileView {
            id: self.id@,
            menu_id: self.menu_id@,
            name: self.name@,
            path: self.path@,
            content: self.content,
        }
    }
}

/// The tile of an attachment.
pub open spec fn tile_shown(
    message_id: Id,
    attachment: AttachmentView,
    index: int,
    loaded: bool,
) -> AttachmentTileView {
    let id = "message-"@ + sidebar::id_text(message_id) + "-attachment-"@ + text::decimal_digits(
        index as nat,
    );
    AttachmentTileView {
        id,
        menu_id: id + "-menu"@,
        name: attachment.name,
        path: attachment.path,
        content: if attachment.is_image {
            if loaded {
                TileContent::Image
            } else {
                TileContent::ImagePending
            }
        } else if attachment.is_dir {
            TileContent::Folder
        } else {
            TileContent::File
        },
    }
}

/// The tiles of a message's attachments: one for each that has a menu.
/// `loaded` says which images have been loaded.
pub fn message_attachments(message: &Message, menu_count: usize, loaded: &Vec<bool>) -> (tiles: Vec<
    AttachmentTile,
>)
    ensures
        tiles@.len() == (if menu_count < message@.attachments.len() {
            menu_count as nat
        } else {
            message@.attachments.len()
        }),
        forall|i: int|
            0 <= i < tiles@.len() ==> (#[trigger] tiles@[i])@ == tile_shown(
                message.id,
                message@.attachments[i],
                i,
                i < loaded@.len() && loaded@[i],
            ),
{
    assert(message@.attachments.len() == message.attachments@.len());
    let id = sidebar::format_id(message.id);
    let mut tiles: Vec<AttachmentTile> = Vec::new();
    let mut i: usize = 0;
    while i < message.attachments.len() && i < menu_count
        invariant
            i <= message.attachments@.len(),
            i <= menu_count,
            id@ == sidebar::id_text(message.id),
            tiles@.len() == i,
            forall|k: int|
                0 <= k < i ==> (#[trigger] tiles@[k])@ == tile_shown(
                    message.id,
                    message@.attachments[k],
                    k,
                    k < loaded@.len() && loaded@[k],
                ),
        decreases message.attachments@.len() - i,
    {
        let attachment = &message.attachments[i];
        assert(message@.attachments[i as int] == attachment@);
        let mut tile_id = text::prefixed("message-", id.as_str());
        tile_id.append("-attachment-");
        let place = text::decimal(i as u64);
        tile_id.append(place.as_str());
        let mut menu_id = tile_id.clone();
        menu_id.append("-menu");
        let is_loaded = i < loaded.len() && loaded[i];
        let tile = AttachmentTile {
            id: tile_id,
            menu_id,
            name: attachment.name.clone(),
            path: attachment.path.clone(),
            content: if attachment.is_image {
                if is_loaded {
                    TileContent::Image
                } else {
                    TileContent::ImagePending
                }
            } else if attachment.is_dir {
                TileContent::Folder
            } else {
                TileContent::File
            },
        };
        assert(tile@ == tile_shown(message.id, attachment@, i as int, is_loaded));
        tiles.push(tile);
        i += 1;
    }
    tiles
}

/// What a key does on an attachment's tile.
#[derive(Clone, Copy, Debug, PartialEq, Eq, Structural)]
pub enum TileKey {
    Enlarge,
    OpenMenu,
    Ignored,
}

/// What a key does on an attachment's tile: enter and space enlarge an image
/// that has been loaded, shift and the tenth function key open the menu.
pub fn attachment_tile_key(content: TileContent, key: &str, shift: bool) -> (action: TileKey)
    ensures
        action == if content == TileContent::Image && sidebar_view::presses(key@) {
            TileKey::Enlarge
        } else if key@ == "f10"@ && shift {
            TileKey::OpenMenu
        } else {
            TileKey::Ignored
        },
{
    if content == TileContent::Image && sidebar_view::key_presses(key) {
        TileKey::Enlarge
    } else if shift && text::same(key, "f10") {
        TileKey::OpenMenu
    } else {
        TileKey::Ignored
    }
}

} // verus!
