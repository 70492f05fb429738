//! The link to a runtime that a daemon owns: which of its events are passed
//! on, what a lost connection leads to, and what the daemon's replies mean.
use crate::events::DriverEvent;
use crate::model::Id;
use crate::session::RuntimeEventCursor;
use crate::sidebar;
use crate::text;
use vstd::prelude::*;

verus! {

// ── Passing events on ──────────────────────────────────────────────────────

/// Whether an event was already seen when the link was made.
pub open spec fn replayed(seen: Option<RuntimeEventCursor>, event: RuntimeEventCursor) -> bool {
    match seen {
        Some(seen) => seen.runtime_id == event.runtime_id && seen.epoch == event.epoch
            && seen.sequence >= event.sequence,
        None => false,
    }
}

/// Whether an event was already seen when the link was made.
pub fn is_replayed(seen: Option<RuntimeEventCursor>, event: RuntimeEventCursor) -> (found: bool)
    ensures
        found == replayed(seen, event),
{
    match seen {
        Some(seen) => seen.runtime_id == event.runtime_id && seen.epoch == event.epoch
            && seen.sequence >= event.sequence,
        None => false,
    }
}

/// The event that a daemon sent, or one that tells that it made no sense.
pub fn received(event: Result<DriverEvent, String>) -> (result: DriverEvent)
    ensures
        match event {
            Ok(event) => result == event,
            Err(error) => result matches DriverEvent::Error(message) && message@
                == "Kerenzikov daemon sent an invalid event: "@ + error@,
        },
{
    match event {
        Ok(event) => event,
        Err(error) => DriverEvent::Error(
            text::prefixed("Kerenzikov daemon sent an invalid event: ", error.as_str()),
        ),
    }
}

// ── The link ───────────────────────────────────────────────────────────────

/// What the link is doing.
#[derive(Clone, Copy, Debug, PartialEq, Eq, Structural)]
pub enum LinkPhase {
    /// Passing events on.
    Listening,
    /// Waiting for the next connection.
    Waiting,
    /// Asking the daemon behind a new connection for the runtime.
    Attaching,
    Over,
}

/// A link to one runtime.
pub struct Link {
    pub runtime_id: Id,
    /// The last event that was seen before the link was made.
    pub seen: Option<RuntimeEventCursor>,
    pub phase: LinkPhase,
}

/// What a daemon answers when it is asked for the runtime of a session.
pub enum AttachReply {
    Runtime { runtime_id: Option<Id> },
    Other,
    /// There was no answer.
    Failed,
}

/// What happens to a link.
pub enum LinkInput {
    /// The link is no longer wanted.
    Shutdown,
    Delivered { cursor: RuntimeEventCursor, event: DriverEvent },
    /// Nobody takes the events any more.
    ReceiverGone,
    /// The connection is lost; `closed` tells whether the link has been given
    /// up meanwhile.
    Disconnected { closed: bool },
    /// There will be no more connections.
    SupervisorGone,
    /// A connection is announced; `same` tells whether it is the one in use.
    Connection { same: bool },
    Attached { reply: AttachReply },
}

/// What has to be done.
pub enum LinkStep {
    Nothing,
    Stop,
    /// Pass an event and its position on.
    Forward { event: DriverEvent, cursor: RuntimeEventCursor },
    /// Pass the last event and its position on, unsubscribe and stop.
    ForwardLast { event: DriverEvent, cursor: RuntimeEventCursor },
    /// Unsubscribe and stop.
    Leave,
    /// Unsubscribe and wait for a connection.
    Wait,
    /// Ask the daemon behind the new connection for the runtime.
    Attach,
    /// Use the new connection and subscribe there.
    Resubscribe,
    /// Take the new connection for the one in use, which is lost as well.
    Adopt,
    /// Tell that the runtime has ended, and stop.
    ReportExit,
    /// Tell that the answer made no sense, and stop.
    ReportInvalid,
}

impl Link {
    /// What an input leads to: the next phase and what has to be done.
    pub open spec fn led(self, input: LinkInput) -> (LinkPhase, LinkStep) {
        match (self.phase, input) {
            (LinkPhase::Listening, LinkInput::Shutdown) => (LinkPhase::Over, LinkStep::Stop),
            (LinkPhase::Listening, LinkInput::ReceiverGone) => (LinkPhase::Over, LinkStep::Stop),
            (LinkPhase::Listening, LinkInput::Delivered { cursor, event }) => if replayed(
                self.seen,
                cursor,
            ) {
                (LinkPhase::Listening, LinkStep::Nothing)
            } else if event is ProcessExited {
                (LinkPhase::Over, LinkStep::ForwardLast { event, cursor })
            } else {
                (LinkPhase::Listening, LinkStep::Forward { event, cursor })
            },
            (LinkPhase::Listening, LinkInput::Disconnected { closed }) => if closed {
                (LinkPhase::Over, LinkStep::Leave)
            } else {
                (LinkPhase::Waiting, LinkStep::Wait)
            },
            (LinkPhase::Waiting, LinkInput::Shutdown) => (LinkPhase::Over, LinkStep::Stop),
            (LinkPhase::Waiting, LinkInput::SupervisorGone) => (LinkPhase::Over, LinkStep::Stop),
            (LinkPhase::Waiting, LinkInput::Connection { same }) => if same {
                (LinkPhase::Waiting, LinkStep::Nothing)
            } else {
                (LinkPhase::Attaching, LinkStep::Attach)
            },
            (LinkPhase::Attaching, LinkInput::Attached { reply }) => match reply {
                AttachReply::Runtime { runtime_id } => if runtime_id == Some(self.runtime_id) {
                    (LinkPhase::Listening, LinkStep::Resubscribe)
                } else {
                    (LinkPhase::Over, LinkStep::ReportExit)
                },
                AttachReply::Other => (LinkPhase::Over, LinkStep::ReportInvalid),
                AttachReply::Failed => (LinkPhase::Listening, LinkStep::Adopt),
            },
            (phase, _) => (phase, LinkStep::Nothing),
        }
    }

    /// A link that has just been made.
    pub fn new(runtime_id: Id, seen: Option<RuntimeEventCursor>) -> (link: Link)
        ensures
            link == (Link { runtime_id, seen, phase: LinkPhase::Listening }),
    {
        Link { runtime_id, seen, phase: LinkPhase::Listening }
    }

    /// Takes note of an input and decides what has to be done. A lost
    /// connection says nothing about the runtime: the next daemon that can be
    /// reached is asked whether it is still there.
    pub fn step(&mut self, input: LinkInput) -> (step: LinkStep)
        ensures
            old(self).led(input) == (final(self).phase, step),
            final(self).runtime_id == old(self).runtime_id,
            final(self).seen == old(self).seen,
    {
        match self.phase {
            LinkPhase::Listening => match input {
                LinkInput::Shutdown => {
                    self.phase = LinkPhase::Over;
                    LinkStep::Stop
                },
                LinkInput::ReceiverGone => {
                    self.phase = LinkPhase::Over;
                    LinkStep::Stop
                },
                LinkInput::Delivered { cursor, event } => {
                    if is_replayed(self.seen, cursor) {
                        return LinkStep::Nothing;
                    }
                    let last: bool = match &event {
                        DriverEvent::ProcessExited => true,
                        _ => false,
                    };
                    if last {
                        self.phase = LinkPhase::Over;
                        LinkStep::ForwardLast { event, cursor }
                    } else {
                        LinkStep::Forward { event, cursor }
                    }
                },
                LinkInput::Disconnected { closed } => if closed {
                    self.phase = LinkPhase::Over;
                    LinkStep::Leave
                } else {
                    self.phase = LinkPhase::Waiting;
                    LinkStep::Wait
                },
                _ => LinkStep::Nothing,
            },
            LinkPhase::Waiting => match input {
                LinkInput::Shutdown => {
                    self.phase = LinkPhase::Over;
                    LinkStep::Stop
                },
                LinkInput::SupervisorGone => {
                    self.phase = LinkPhase::Over;
                    LinkStep::Stop
                },
                LinkInput::Connection { same } => if same {
                    LinkStep::Nothing
                } else {
                    self.phase = LinkPhase::Attaching;
                    LinkStep::Attach
                },
                _ => LinkStep::Nothing,
            },
            LinkPhase::Attaching => match input {
                LinkInput::Attached { reply } => match reply {
                    AttachReply::Runtime { runtime_id } => {
                        let ours: bool = match runtime_id {
                            Some(runtime_id) => runtime_id == self.runtime_id,
                            None => false,
                        };
                        if ours {
                            self.phase = LinkPhase::Listening;
                            LinkStep::Resubscribe
                        } else {
                            self.phase = LinkPhase::Over;
                            LinkStep::ReportExit
                        }
                    },
                    AttachReply::Other => {
                        self.phase = LinkPhase::Over;
                        LinkStep::ReportInvalid
                    },
                    AttachReply::Failed => {
                        self.phase = LinkPhase::Listening;
                        LinkStep::Adopt
                    },
                },
                _ => LinkStep::Nothing,
            },
            LinkPhase::Over => LinkStep::Nothing,
        }
    }
}

/// What is told when the answer made no sense.
pub fn invalid_attachment() -> (message: String)
    ensures
        message@ == "Kerenzikov daemon returned an invalid runtime attachment response"@,
{
    text::owned("Kerenzikov daemon returned an invalid runtime attachment response")
}

/// The name of the thread that passes a session's events on.
pub fn session_thread_name(session_id: Id) -> (name: String)
    ensures
        name@ == "waku-daemon-session-"@ + sidebar::id_text(session_id),
{
    text::prefixed("waku-daemon-session-", sidebar::format_id(session_id).as_str())
}

/// A link after some inputs.
pub open spec fn linked(link: Link, inputs: Seq<LinkInput>) -> Link
    decreases inputs.len(),
{
    if inputs.len() == 0 {
        link
    } else {
        let link = linked(link, inputs.drop_last());
        Link { phase: link.led(inputs.last()).0, ..link }
    }
}

proof fn lemma_a_link_keeps_its_runtime(link: Link, inputs: Seq<LinkInput>)
    ensures
        linked(link, inputs).runtime_id == link.runtime_id,
        linked(link, inputs).seen == link.seen,
    decreases inputs.len(),
{
    if inputs.len() > 0 {
        lemma_a_link_keeps_its_runtime(link, inputs.drop_last());
    }
}

/// However often the connection is lost and made again, an event that was
/// seen before the link was made is never passed on.
pub proof fn nothing_is_told_twice(link: Link, inputs: Seq<LinkInput>, input: LinkInput)
    ensures
        match linked(link, inputs).led(input).1 {
            LinkStep::Forward { event, cursor } => !replayed(link.seen, cursor),
            LinkStep::ForwardLast { event, cursor } => !replayed(link.seen, cursor),
            _ => true,
        },
{
    lemma_a_link_keeps_its_runtime(link, inputs);
}

/// A lost connection alone never ends a task: that the runtime has ended is
/// told only when the runtime said so or when a daemon answers that it does
/// not have it.
pub proof fn a_lost_connection_ends_nothing(link: Link, inputs: Seq<LinkInput>, input: LinkInput)
    requires
        linked(link, inputs).led(input).1 is ReportExit,
    ensures
        input matches LinkInput::Attached { reply: AttachReply::Runtime { runtime_id } }
            && runtime_id != Some(link.runtime_id),
{
    lemma_a_link_keeps_its_runtime(link, inputs);
}

/// A link that is over stays over, and asks for nothing more.
pub proof fn a_link_ends_once(link: Link, inputs: Seq<LinkInput>)
    requires
        link.phase == LinkPhase::Over,
    ensures
        linked(link, inputs).phase == LinkPhase::Over,
        forall|input: LinkInput| #[trigger]
            linked(link, inputs).led(input) == (LinkPhase::Over, LinkStep::Nothing),
    decreases inputs.len(),
{
    if inputs.len() > 0 {
        a_link_ends_once(link, inputs.drop_last());
    }
}

// ── What the daemon's replies mean ─────────────────────────────────────────

/// What a daemon answers to a request.
pub enum DaemonReply {
    Started { supports_steer: bool },
    OptionsApplied { applied: bool },
    /// Where a provider can be resumed, encoded.
    Cursor { cursor: Option<String> },
    Other,
}

/// Whether a runtime that was started can be steered.
pub fn start_remote(reply: &Result<DaemonReply, String>) -> (started: Result<bool, String>)
    ensures
        match *reply {
            Ok(DaemonReply::Started { supports_steer }) => started == Ok::<bool, String>(
                supports_steer,
            ),
            Ok(_) => started matches Err(message) && message@
                == "Kerenzikov daemon returned an invalid start response"@,
            Err(error) => started matches Err(message) && message@ == error@,
        },
{
    match reply {
        Ok(DaemonReply::Started { supports_steer }) => Ok(*supports_steer),
        Ok(_) => Err(text::owned("Kerenzikov daemon returned an invalid start response")),
        Err(error) => Err(error.clone()),
    }
}

/// Whether the daemon has taken up new options.
pub fn apply_options(reply: &Result<DaemonReply, String>) -> (applied: bool)
    ensures
        applied == (reply matches Ok(DaemonReply::OptionsApplied { applied: true })),
{
    match reply {
        Ok(DaemonReply::OptionsApplied { applied }) => *applied,
        _ => false,
    }
}

/// Where a provider can be resumed after turns were taken back.
pub fn rollback(reply: &Result<DaemonReply, String>) -> (cursor: Result<Option<String>, String>)
    ensures
        match *reply {
            Ok(DaemonReply::Cursor { cursor: encoded }) => cursor matches Ok(kept)
                && text::text_view(kept) == text::text_view(encoded),
            Ok(_) => cursor matches Err(message) && message@
                == "Kerenzikov daemon returned an invalid rollback response"@,
            Err(error) => cursor matches Err(message) && message@ == error@,
        },
{
    match reply {
        Ok(DaemonReply::Cursor { cursor }) => Ok(text::copy_text(cursor)),
        Ok(_) => Err(text::owned("Kerenzikov daemon returned an invalid rollback response")),
        Err(error) => Err(error.clone()),
    }
}

/// Where a provider can be resumed in a session that was split off. Unlike a
/// session whose turns were taken back, it always has such a place.
pub fn fork(reply: &Result<DaemonReply, String>) -> (cursor: Result<String, String>)
    ensures
        match *reply {
            Ok(DaemonReply::Cursor { cursor: Some(encoded) }) => cursor matches Ok(kept) && kept@
                == encoded@,
            Ok(_) => cursor matches Err(message) && message@
                == "Kerenzikov daemon returned an invalid fork response"@,
            Err(error) => cursor matches Err(message) && message@ == error@,
        },
{
    match reply {
        Ok(DaemonReply::Cursor { cursor: Some(cursor) }) => Ok(cursor.clone()),
        Ok(_) => Err(text::owned("Kerenzikov daemon returned an invalid fork response")),
        Err(error) => Err(error.clone()),
    }
}

/// What is told when a command could not be sent.
pub fn notify_failure(error: &str) -> (event: DriverEvent)
    ensures
        event matches DriverEvent::Error(message) && message@
            == "Kerenzikov daemon command failed: "@ + error@,
{
    DriverEvent::Error(text::prefixed("Kerenzikov daemon command failed: ", error))
}

/// What is told when the work to stop could not be encoded.
pub fn encode_failure(error: &str) -> (event: DriverEvent)
    ensures
        event matches DriverEvent::Error(message) && message@
            == "could not encode background-work command: "@ + error@,
{
    DriverEvent::Error(text::prefixed("could not encode background-work command: ", error))
}

} // verus!
