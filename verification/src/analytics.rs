//! Privacy-conscious product analytics.
//!
//! Events carry no prompts, project names or paths, provider output, or
//! account identity. They wait in a bounded queue; a full queue drops the
//! event, and so does a user who does not share.
use crate::text;
use vstd::prelude::*;

verus! {

/// How many events wait to be sent at most.
pub const EVENT_QUEUE_CAPACITY: usize = 128;

/// How a turn ended.
#[derive(Clone, Copy, Debug, PartialEq, Eq, Structural)]
pub enum TurnOutcome {
    Completed,
    Failed,
    Cancelled,
    ProcessExited,
    StartFailed,
    PreparationFailed,
}

impl TurnOutcome {
    /// The name an outcome is reported under.
    pub open spec fn id_text(self) -> Seq<char> {
        match self {
            TurnOutcome::Completed => "completed"@,
            TurnOutcome::Failed => "failed"@,
            TurnOutcome::Cancelled => "cancelled"@,
            TurnOutcome::ProcessExited => "process_exited"@,
            TurnOutcome::StartFailed => "start_failed"@,
            TurnOutcome::PreparationFailed => "preparation_failed"@,
        }
    }

    /// The name an outcome is reported under.
    pub fn id(self) -> (id: &'static str)
        ensures
            id@ == self.id_text(),
    {
        match self {
            TurnOutcome::Completed => "completed",
            TurnOutcome::Failed => "failed",
            TurnOutcome::Cancelled => "cancelled",
            TurnOutcome::ProcessExited => "process_exited",
            TurnOutcome::StartFailed => "start_failed",
            TurnOutcome::PreparationFailed => "preparation_failed",
        }
    }
}

/// The deliberately small product vocabulary.
pub enum Event {
    AppLaunched { task_count: usize, project_count: usize },
    ProjectAdded,
    RightPanelOpened,
    TurnSubmitted {
        provider: &'static str,
        model: String,
        turn_number: usize,
        workspace: &'static str,
        projectless: bool,
        attachment_count: usize,
        has_input: bool,
    },
    TurnFinished {
        provider: &'static str,
        turn_number: usize,
        outcome: TurnOutcome,
        duration_seconds: u64,
    },
    PermissionResponded { provider: &'static str, kind: &'static str, decision: &'static str },
    ConversationRolledBack { provider: &'static str, turns: usize },
    ResponseForked { provider: &'static str, turn_number: usize },
}

// ── The queue ──────────────────────────────────────────────────────────────

/// The events waiting to be sent, and whether any may be.
pub struct Analytics {
    events: Vec<Event>,
    capacity: usize,
    enabled: bool,
    available: bool,
}

/// What became of the oldest waiting event.
pub enum Taken {
    /// None was waiting.
    Empty,
    /// It is not sent, because sharing is off.
    Dropped,
    Send(Event),
}

impl Analytics {
    /// The waiting events, oldest first.
    pub closed spec fn waiting(&self) -> Seq<Event> {
        self.events@
    }

    /// Whether events are taken.
    pub closed spec fn is_enabled(&self) -> bool {
        self.enabled
    }

    /// Whether this build can send events at all.
    pub closed spec fn is_available(&self) -> bool {
        self.available
    }

    /// How many events may wait.
    pub closed spec fn max_waiting(&self) -> nat {
        self.capacity as nat
    }

    /// An empty queue. Events are taken only where this build can send them
    /// and the user shares them.
    pub fn new(available: bool, sharing_enabled: bool) -> (analytics: Analytics)
        ensures
            analytics.waiting() == Seq::<Event>::empty(),
            analytics.is_available() == available,
            analytics.is_enabled() == (available && sharing_enabled),
            analytics.max_waiting() == EVENT_QUEUE_CAPACITY,
    {
        Self::with_capacity(available, sharing_enabled, EVENT_QUEUE_CAPACITY)
    }

    /// An empty queue that holds at most `capacity` events.
    pub fn with_capacity(available: bool, sharing_enabled: bool, capacity: usize) -> (analytics:
        Analytics)
        ensures
            analytics.waiting() == Seq::<Event>::empty(),
            analytics.is_available() == available,
            analytics.is_enabled() == (available && sharing_enabled),
            analytics.max_waiting() == capacity,
    {
        Analytics { events: Vec::new(), capacity, enabled: available && sharing_enabled, available }
    }

    /// Put an event in the queue without waiting for room: while sharing is
    /// off, or the queue is full, the event is dropped.
    pub fn track(&mut self, event: Event)
        ensures
            final(self).waiting() == (if old(self).is_enabled() && old(self).waiting().len() < old(
                self,
            ).max_waiting() {
                old(self).waiting().push(event)
            } else {
                old(self).waiting()
            }),
            final(self).is_enabled() == old(self).is_enabled(),
            final(self).is_available() == old(self).is_available(),
            final(self).max_waiting() == old(self).max_waiting(),
    {
        if !self.enabled {
            return;
        }
        if self.events.len() < self.capacity {
            self.events.push(event);
        }
    }

    /// Apply the user's sharing preference. A build that cannot send events
    /// never takes any.
    pub fn set_enabled(&mut self, enabled: bool)
        ensures
            final(self).is_enabled() == (old(self).is_available() && enabled),
            final(self).waiting() == old(self).waiting(),
            final(self).is_available() == old(self).is_available(),
            final(self).max_waiting() == old(self).max_waiting(),
    {
        self.enabled = self.available && enabled;
    }

    /// Take the oldest waiting event. It is sent only while sharing is on, so
    /// turning sharing off also drops what already waits.
    pub fn take_next(&mut self) -> (taken: Taken)
        ensures
            final(self).is_enabled() == old(self).is_enabled(),
            final(self).is_available() == old(self).is_available(),
            final(self).max_waiting() == old(self).max_waiting(),
            final(self).waiting() == (if old(self).waiting().len() == 0 {
                old(self).waiting()
            } else {
                old(self).waiting().skip(1)
            }),
            match taken {
                Taken::Empty => old(self).waiting().len() == 0,
                Taken::Dropped => old(self).waiting().len() > 0 && !old(self).is_enabled(),
                Taken::Send(event) => old(self).waiting().len() > 0 && old(self).is_enabled()
                    && event == old(self).waiting()[0],
            },
    {
        if self.events.is_empty() {
            return Taken::Empty;
        }
        let event = self.events.remove(0);
        assert(self.events@ =~= old(self).events@.skip(1));
        if self.enabled {
            Taken::Send(event)
        } else {
            Taken::Dropped
        }
    }
}

// ── What is sent ───────────────────────────────────────────────────────────

/// One property of an event.
#[verifier::ext_equal]
pub enum Property {
    Text(Seq<char>),
    Number(nat),
    Flag(bool),
}

/// JSON values are carried in properties and not looked into.
#[verifier::external_type_specification]
#[verifier::external_body]
pub struct ExJsonValue(serde_json::Value);

/// The JSON object that an event's properties are collected in.
#[verifier::external_type_specification]
#[verifier::external_body]
#[verifier::reject_recursive_types(K)]
#[verifier::reject_recursive_types(V)]
pub struct ExJsonObject<K, V>(serde_json::Map<K, V>);

/// The properties that a JSON object holds.
pub uninterp spec fn properties(object: serde_json::Map<String, serde_json::Value>) -> Map<
    Seq<char>,
    Property,
>;

/// No property at all.
pub open spec fn no_properties() -> Map<Seq<char>, Property> {
    Map::empty()
}

/// `serde_json::Map::new` makes an object without properties.
#[verifier::external_body]
fn empty_object() -> (object: serde_json::Map<String, serde_json::Value>)
    ensures
        properties(object) == no_properties(),
{
    serde_json::Map::new()
}

/// `serde_json::Map::insert` puts a JSON string under a key, in place of
/// whatever stood there.
#[verifier::external_body]
fn put_text(object: &mut serde_json::Map<String, serde_json::Value>, key: &str, value: &str)
    ensures
        properties(*final(object)) == properties(*old(object)).insert(key@, Property::Text(value@)),
{
    object.insert(key.to_owned(), serde_json::Value::String(value.to_owned()));
}

/// `serde_json::Map::insert` puts a JSON number under a key, in place of
/// whatever stood there.
#[verifier::external_body]
fn put_number(object: &mut serde_json::Map<String, serde_json::Value>, key: &str, value: u64)
    ensures
        properties(*final(object)) == properties(*old(object)).insert(
            key@,
            Property::Number(value as nat),
        ),
{
    object.insert(key.to_owned(), serde_json::Value::from(value));
}

/// `serde_json::Map::insert` puts a JSON boolean under a key, in place of
/// whatever stood there.
#[verifier::external_body]
fn put_flag(object: &mut serde_json::Map<String, serde_json::Value>, key: &str, value: bool)
    ensures
        properties(*final(object)) == properties(*old(object)).insert(key@, Property::Flag(value)),
{
    object.insert(key.to_owned(), serde_json::Value::Bool(value));
}

/// What every event says of the build it comes from.
pub struct BuildInfo {
    pub version: String,
    pub platform: String,
    pub arch: String,
    pub debug: bool,
}

/// The name an event is sent under.
pub open spec fn event_name(event: Event) -> Seq<char> {
    match event {
        Event::AppLaunched { .. } => "app.launched"@,
        Event::ProjectAdded => "project.added"@,
        Event::RightPanelOpened => "right_panel.opened"@,
        Event::TurnSubmitted { .. } => "provider.turn.sent"@,
        Event::TurnFinished { .. } => "provider.turn.finished"@,
        Event::PermissionResponded { .. } => "provider.request.responded"@,
        Event::ConversationRolledBack { .. } => "provider.conversation.rolled_back"@,
        Event::ResponseForked { .. } => "provider.response.forked"@,
    }
}

/// What an event says of itself.
pub open spec fn own_properties(event: Event) -> Map<Seq<char>, Property> {
    let none = no_properties();
    match event {
        Event::AppLaunched { task_count, project_count } => none.insert(
            "taskCount"@,
            Property::Number(task_count as nat),
        ).insert("projectCount"@, Property::Number(project_count as nat)),
        Event::ProjectAdded => none,
        Event::RightPanelOpened => none,
        Event::TurnSubmitted {
            provider,
            model,
            turn_number,
            workspace,
            projectless,
            attachment_count,
            has_input,
        } => none.insert("provider"@, Property::Text(provider@)).insert(
            "model"@,
            Property::Text(model@),
        ).insert("turnNumber"@, Property::Number(turn_number as nat)).insert(
            "workspace"@,
            Property::Text(workspace@),
        ).insert("projectless"@, Property::Flag(projectless)).insert(
            "attachmentCount"@,
            Property::Number(attachment_count as nat),
        ).insert("hasInput"@, Property::Flag(has_input)),
        Event::TurnFinished { provider, turn_number, outcome, duration_seconds } => none.insert(
            "provider"@,
            Property::Text(provider@),
        ).insert("turnNumber"@, Property::Number(turn_number as nat)).insert(
            "outcome"@,
            Property::Text(outcome.id_text()),
        ).insert("durationSeconds"@, Property::Number(duration_seconds as nat)),
        Event::PermissionResponded { provider, kind, decision } => none.insert(
            "provider"@,
            Property::Text(provider@),
        ).insert("kind"@, Property::Text(kind@)).insert("decision"@, Property::Text(decision@)),
        Event::ConversationRolledBack { provider, turns } => none.insert(
            "provider"@,
            Property::Text(provider@),
        ).insert("turns"@, Property::Number(turns as nat)),
        Event::ResponseForked { provider, turn_number } => none.insert(
            "provider"@,
            Property::Text(provider@),
        ).insert("turnNumber"@, Property::Number(turn_number as nat)),
    }
}

/// What an event sends: what it says of itself, and of the build.
pub open spec fn event_properties(event: Event, build: BuildInfo) -> Map<Seq<char>, Property> {
    own_properties(event).insert("clientType"@, Property::Text("desktop"@)).insert(
        "version"@,
        Property::Text(build.version@),
    ).insert("platform"@, Property::Text(build.platform@)).insert(
        "arch"@,
        Property::Text(build.arch@),
    ).insert(
        "build"@,
        Property::Text(
            if build.debug {
                "debug"@
            } else {
                "release"@
            },
        ),
    )
}

impl Event {
    /// The name and the properties that an event is sent with.
    pub fn into_track(self, build: &BuildInfo) -> (track: (
        &'static str,
        serde_json::Map<String, serde_json::Value>,
    ))
        ensures
            track.0@ == event_name(self),
            properties(track.1) == event_properties(self, *build),
    {
        let mut data = empty_object();
        let name: &'static str = match self {
            Event::AppLaunched { task_count, project_count } => {
                put_number(&mut data, "taskCount", task_count as u64);
                put_number(&mut data, "projectCount", project_count as u64);
                "app.launched"
            },
            Event::ProjectAdded => "project.added",
            Event::RightPanelOpened => "right_panel.opened",
            Event::TurnSubmitted {
                provider,
                model,
                turn_number,
                workspace,
                projectless,
                attachment_count,
                has_input,
            } => {
                put_text(&mut data, "provider", provider);
                put_text(&mut data, "model", model.as_str());
                put_number(&mut data, "turnNumber", turn_number as u64);
                put_text(&mut data, "workspace", workspace);
                put_flag(&mut data, "projectless", projectless);
                put_number(&mut data, "attachmentCount", attachment_count as u64);
                put_flag(&mut data, "hasInput", has_input);
                "provider.turn.sent"
            },
            Event::TurnFinished { provider, turn_number, outcome, duration_seconds } => {
                put_text(&mut data, "provider", provider);
                put_number(&mut data, "turnNumber", turn_number as u64);
                put_text(&mut data, "outcome", outcome.id());
                put_number(&mut data, "durationSeconds", duration_seconds);
                "provider.turn.finished"
            },
            Event::PermissionResponded { provider, kind, decision } => {
                put_text(&mut data, "provider", provider);
                put_text(&mut data, "kind", kind);
                put_text(&mut data, "decision", decision);
                "provider.request.responded"
            },
            Event::ConversationRolledBack { provider, turns } => {
                put_text(&mut data, "provider", provider);
                put_number(&mut data, "turns", turns as u64);
                "provider.conversation.rolled_back"
            },
            Event::ResponseForked { provider, turn_number } => {
                put_text(&mut data, "provider", provider);
                put_number(&mut data, "turnNumber", turn_number as u64);
                "provider.response.forked"
            },
        };
        put_text(&mut data, "clientType", "desktop");
        put_text(&mut data, "version", build.version.as_str());
        put_text(&mut data, "platform", build.platform.as_str());
        put_text(&mut data, "arch", build.arch.as_str());
        put_text(
            &mut data,
            "build",
            if build.debug {
                "debug"
            } else {
                "release"
            },
        );
        (name, data)
    }
}

// ── Whether any of this runs ───────────────────────────────────────────────

/// Whether the value of a switch in the environment turns it on.
pub open spec fn switched_on(value: Seq<char>) -> bool {
    let word = text::ascii_lowercase_of(text::trimmed(value));
    word == "1"@ || word == "true"@ || word == "yes"@ || word == "on"@
}

/// Whether the value of a switch in the environment turns it on.
pub fn env_flag(value: &str) -> (on: bool)
    ensures
        on == switched_on(value@),
{
    let trimmed = text::trim(value);
    let word = text::ascii_lowercase(trimmed.as_str());
    text::same(word.as_str(), "1") || text::same(word.as_str(), "true") || text::same(
        word.as_str(),
        "yes",
    ) || text::same(word.as_str(), "on")
}

/// Whether a value is present and says something.
pub open spec fn configured(value: Option<Seq<char>>) -> bool {
    value matches Some(value) && !text::blank(value)
}

fn is_configured(value: &Option<String>) -> (result: bool)
    ensures
        result == configured(text::text_view(*value)),
{
    match value {
        Some(value) => !text::is_blank(value.as_str()),
        None => false,
    }
}

/// Whether events are sent at all: in a release build that knows where to,
/// unless the environment turns it off.
pub fn analytics_available(
    debug_build: bool,
    disable_switch: &Option<String>,
    endpoint: &Option<String>,
    website_id: &Option<String>,
) -> (available: bool)
    ensures
        available == (!debug_build && !(disable_switch matches Some(value) && switched_on(value@))
            && configured(text::text_view(*endpoint)) && configured(text::text_view(*website_id))),
{
    let disabled: bool = match disable_switch {
        Some(value) => env_flag(value.as_str()),
        None => false,
    };
    !debug_build && !disabled && is_configured(endpoint) && is_configured(website_id)
}

/// Every key that any event uses.
pub open spec fn vocabulary() -> Set<Seq<char>> {
    set![
        "taskCount"@,
        "projectCount"@,
        "provider"@,
        "model"@,
        "turnNumber"@,
        "workspace"@,
        "projectless"@,
        "attachmentCount"@,
        "hasInput"@,
        "outcome"@,
        "durationSeconds"@,
        "kind"@,
        "decision"@,
        "turns"@,
        "clientType"@,
        "version"@,
        "platform"@,
        "arch"@,
        "build"@,
    ]
}

/// No event says anything but coarse product metadata: its keys are all from
/// one small vocabulary, which has no prompt, project or account in it.
pub proof fn events_keep_to_the_vocabulary(event: Event, build: BuildInfo)
    ensures
        event_properties(event, build).dom().subset_of(vocabulary()),
{
    assert(own_properties(event).dom().subset_of(vocabulary()));
}

} // verus!
