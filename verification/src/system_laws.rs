//! What the parts around the conversation are for: the calendar, the cached
//! transcript, the panels, the daemon, its link and the replacement of an
//! install, said of what goes in and what comes out.
use crate::cache;
use crate::cache::TranscriptAnchor;
use crate::calendar;
use crate::calendar::{CalendarDate, SessionDateGroup};
use crate::daemon;
use crate::daemon::{DaemonFiles, DaemonPathView, DaemonStartView};
use crate::driver::{AttachReply, Link, LinkInput, LinkPhase, LinkStep};
use crate::events::DriverEvent;
use crate::layout;
use crate::layout::{Length, Panel, PanelLimits, PanelResizeDrag, PanelResizeTarget};
use crate::model::{Id, MessageRole};
use crate::paths;
use crate::session::{RuntimeEventCursor, SessionView};
use crate::swap::{ActionView, OutcomeView, Place, UpdateView};
use crate::text;
use crate::transcript::TranscriptRowKind;
use vstd::prelude::*;

verus! {

// ── The calendar ───────────────────────────────────────────────────────────

/// A day has the number behind that of the day before it, within a month, over
/// the end of a month and over the end of a year; the first day of 1970 has
/// the number that times are counted from, and was a Thursday.
pub proof fn days_are_numbered_in_a_row(date: CalendarDate)
    requires
        date.valid(),
        date.year < i32::MAX,
    ensures
        ({
            let year = date.year as int;
            let leap = year % 4 == 0 && (year % 100 != 0 || year % 400 == 0);
            let long = date.month == 1 || date.month == 3 || date.month == 5 || date.month == 7
                || date.month == 8 || date.month == 10 || date.month == 12;
            let last = if date.month == 2 {
                if leap {
                    29
                } else {
                    28
                }
            } else if long {
                31int
            } else {
                30
            };
            let next = (CalendarDate { day: (date.day + 1) as u32, ..date });
            let month = (CalendarDate { month: (date.month + 1) as u32, day: 1, ..date });
            let new_year = (CalendarDate { year: (date.year + 1) as i32, month: 1, day: 1 });
            &&& date.day <= last
            &&& date.day < last ==> next.number() == date.number() + 1
            &&& date.day == last && date.month < 12 ==> month.number() == date.number() + 1
            &&& date.day == last && date.month == 12 ==> new_year.number() == date.number() + 1
        }),
        (CalendarDate { year: 1970, month: 1, day: 1 }).number() == calendar::EPOCH_DAY,
        (CalendarDate { year: 1970, month: 1, day: 1 }).since_monday() == 3,
{
    let year = date.year as int;
    reveal_with_fuel(calendar::days_before_month, 13);
    assert(calendar::days_before_year(year + 1) == calendar::days_before_year(year)
        + if calendar::leap(year) {
        366int
    } else {
        365
    }) by {
        assert(year / 4 - (year - 1) / 4 == if year % 4 == 0 {
            1int
        } else {
            0
        });
        assert(year / 100 - (year - 1) / 100 == if year % 100 == 0 {
            1int
        } else {
            0
        });
        assert(year / 400 - (year - 1) / 400 == if year % 400 == 0 {
            1int
        } else {
            0
        });
    }
}

/// A day falls into the most recent period that it belongs to: today and later
/// days, yesterday, the week since Monday, the month, the year.
pub proof fn a_day_falls_into_its_period(date: CalendarDate, today: CalendarDate)
    requires
        date.valid(),
        today.valid(),
        today.number() - today.since_monday() >= calendar::FIRST_DAY,
    ensures
        ({
            let period = calendar::period(date, today);
            let ago = today.number() - date.number();
            let this_week = ago <= (today.number() - 1) % 7;
            let this_year = date.year == today.year;
            let this_month = this_year && date.month == today.month;
            &&& period == SessionDateGroup::Today <==> ago <= 0
            &&& period == SessionDateGroup::Yesterday <==> ago == 1
            &&& period == SessionDateGroup::ThisWeek <==> ago > 1 && this_week
            &&& period == SessionDateGroup::ThisMonth <==> ago > 1 && !this_week && this_month
            &&& period == SessionDateGroup::ThisYear <==> ago > 1 && !this_week && !this_month
                && this_year
            &&& period == SessionDateGroup::More <==> ago > 1 && !this_week && !this_year
        }),
{
}

/// A clock shows two digits of the hour and two of the minute.
pub proof fn two_digits_mean_their_number(number: int)
    requires
        0 <= number < 100,
    ensures
        calendar::two_digits(number).len() == 2,
        text::all_digits(calendar::two_digits(number)),
        text::digits_value(calendar::two_digits(number)) == number,
{
    let digits = calendar::two_digits(number);
    assert(digits.drop_last().drop_last() =~= Seq::empty());
    reveal_with_fuel(text::digits_value, 3);
    assert(digits.drop_last()[0] == digits[0]);
}

/// An hour of the afternoon is shown as that of the morning, and midnight and
/// noon as twelve.
pub proof fn a_clock_of_twelve_hours(hour: int, minute: int)
    requires
        0 <= hour < 24,
    ensures
        ({
            let shown = if hour == 0 || hour == 12 {
                12int
            } else if hour < 12 {
                hour
            } else {
                hour - 12
            };
            calendar::clock12(hour, minute) == calendar::two_digits(shown) + ":"@
                + calendar::two_digits(minute) + if hour < 12 {
                " AM"@
            } else {
                " PM"@
            }
        }),
{
}

// ── The cached transcript ──────────────────────────────────────────────────

/// A row is found where it first stands.
pub proof fn a_row_is_found_where_it_first_stands(
    rows: Seq<TranscriptRowKind>,
    target: TranscriptRowKind,
    at: int,
)
    requires
        0 <= at <= rows.len(),
        at < rows.len() ==> rows[at] == target,
        forall|k: int| 0 <= k < at ==> #[trigger] rows[k] != target,
    ensures
        cache::first_row(rows, target) == if at < rows.len() {
            Some(at as usize)
        } else {
            None
        },
    decreases rows.len(),
{
    if rows.len() > 0 {
        let front = rows.drop_last();
        assert forall|k: int| 0 <= k < front.len() && k < at implies #[trigger] front[k]
            != target by {
            assert(rows[k] != target);
        }
        if at < rows.len() - 1 {
            assert(front[at] == target);
            a_row_is_found_where_it_first_stands(front, target, at);
        } else {
            a_row_is_found_where_it_first_stands(front, target, front.len() as int);
        }
    }
}

proof fn lemma_opening_message(session: SessionView, turn_id: Id, n: int, at: int)
    requires
        0 <= at <= n <= session.messages.len(),
        at < n ==> session.messages[at].role == MessageRole::User && session.messages[at].turn_id
            == Some(turn_id),
        forall|k: int|
            0 <= k < at ==> !((#[trigger] session.messages[k]).role == MessageRole::User
                && session.messages[k].turn_id == Some(turn_id)),
    ensures
        cache::opening_message(session, turn_id, n) == if at < n {
            Some(at as usize)
        } else {
            None
        },
    decreases n,
{
    if n > 0 {
        if at < n - 1 {
            lemma_opening_message(session, turn_id, n - 1, at);
        } else {
            lemma_opening_message(session, turn_id, n - 1, n - 1);
        }
    }
}

/// The transcript is held at the first row of the prompt that opened a turn,
/// as long as its session is on screen and shows it.
pub proof fn the_anchor_is_the_opening_prompt(
    anchor: TranscriptAnchor,
    session: SessionView,
    rows: Seq<TranscriptRowKind>,
    at: int,
)
    requires
        0 <= at <= session.messages.len(),
        at < session.messages.len() ==> session.messages[at].role == MessageRole::User
            && session.messages[at].turn_id == Some(anchor.turn_id),
        forall|k: int|
            0 <= k < at ==> !((#[trigger] session.messages[k]).role == MessageRole::User
                && session.messages[k].turn_id == Some(anchor.turn_id)),
    ensures
        cache::anchor_row(None, Some(session), rows) is None,
        cache::anchor_row(Some(anchor), None, rows) is None,
        session.id != anchor.session_id || at == session.messages.len() ==> cache::anchor_row(
            Some(anchor),
            Some(session),
            rows,
        ) is None,
        session.id == anchor.session_id && at < session.messages.len() ==> cache::anchor_row(
            Some(anchor),
            Some(session),
            rows,
        ) == cache::first_row(rows, TranscriptRowKind::Message(at as usize)),
{
    lemma_opening_message(session, anchor.turn_id, session.messages.len() as int, at);
}

// ── Panels ─────────────────────────────────────────────────────────────────

/// The edge of a panel follows the mouse: the sidebar grows to the right, and
/// every other panel to the left.
pub proof fn an_edge_follows_the_mouse(drag: PanelResizeDrag, from: Length, to: Length)
    ensures
        drag.target == PanelResizeTarget::Sidebar ==> layout::dragged_width(drag, to)
            - layout::dragged_width(drag, from) == to - from,
        drag.target != PanelResizeTarget::Sidebar ==> layout::dragged_width(drag, to)
            - layout::dragged_width(drag, from) == from - to,
        layout::dragged_width(drag, drag.start_mouse_x) == drag.start_width,
{
}

/// A panel has the width that is asked for where it may, and otherwise the
/// nearest that it may have: never below its least, never above its greatest,
/// and with room left for what stands beside it where there is any.
pub proof fn a_panel_fits_its_room(limits: PanelLimits, room: Length, width: int)
    requires
        limits.wf(),
    ensures
        ({
            let fitted = limits.fitted(room, width);
            let left = room - limits.beside;
            &&& limits.minimum <= fitted <= limits.maximum
            &&& left >= limits.minimum ==> fitted <= left
            &&& left <= limits.minimum ==> fitted == limits.minimum
            &&& limits.minimum <= width <= limits.maximum && width <= left ==> fitted == width
            &&& width <= limits.minimum ==> fitted == limits.minimum
            &&& limits.minimum <= limits.maximum <= left && width >= limits.maximum ==> fitted
                == limits.maximum
            &&& limits.minimum <= left <= limits.maximum && width >= left ==> fitted == left
        }),
{
}

/// A panel that is shown or hidden slides from the width that is seen, unless
/// motion is reduced; one that already is as asked stays.
pub proof fn a_panel_slides_when_it_changes(
    panel: Panel,
    visible: bool,
    seen: Length,
    reduce_motion: bool,
)
    ensures
        ({
            let after = panel.shown(visible, seen, reduce_motion);
            &&& after.visible == visible
            &&& panel.visible == visible ==> after.slide == panel.slide
            &&& panel.visible != visible && reduce_motion ==> after.slide is None
            &&& panel.visible != visible && !reduce_motion ==> after.slide == Some(seen)
        }),
{
}

/// The reader is at the tail where its end is in view, up to half a pixel.
pub proof fn the_tail_is_in_view(bottom: Length, tail: Length, space: Length)
    ensures
        layout::rests_at_tail(bottom, None, space) is None,
        layout::rests_at_tail(bottom, Some(tail), space) is Some,
        layout::rests_at_tail(bottom, Some(tail), space)->0 <==> tail + space - bottom
            <= layout::HALF_PIXEL,
{
}

// ── The daemon ─────────────────────────────────────────────────────────────

/// The application connects to a daemon elsewhere where an address and a token
/// are given; one without the other is refused, and with neither it starts its
/// own.
pub proof fn a_daemon_elsewhere_needs_both(
    address: Option<Seq<char>>,
    token: Option<Seq<char>>,
    address_name: Seq<char>,
    token_name: Seq<char>,
)
    ensures
        ({
            let start = daemon::daemon_start(address, token, address_name, token_name);
            let addressed = address is Some && !text::blank(address->0);
            let trusted = token is Some && token->0.len() > 0;
            &&& start is Connect <==> addressed && trusted
            &&& start is Connect ==> start->address == text::trimmed(address->0) && start->token
                == token->0
            &&& start is Spawn <==> !addressed && !trusted
            &&& addressed && !trusted ==> start == (DaemonStartView::Refused {
                message: address_name + " is set but "@ + token_name + " is missing"@,
            })
            &&& !addressed && trusted ==> start == (DaemonStartView::Refused {
                message: token_name + " is set but "@ + address_name + " is missing"@,
            })
        }),
{
}

/// The machine is called by the first name that is not blank, without the
/// white space at its ends.
pub proof fn the_first_name_counts(names: Seq<Seq<char>>, at: int)
    requires
        0 <= at <= names.len(),
        at < names.len() ==> !text::blank(names[at]),
        forall|k: int| 0 <= k < at ==> text::blank(#[trigger] names[k]),
    ensures
        daemon::first_name(names) == if at < names.len() {
            Some(text::trimmed(names[at]))
        } else {
            None
        },
    decreases names.len(),
{
    if names.len() > 0 && at > 0 {
        assert(text::blank(names[0]));
        let rest = names.skip(1);
        assert forall|k: int| 0 <= k < at - 1 implies text::blank(#[trigger] rest[k]) by {
            assert(text::blank(names[k + 1]));
        }
        the_first_name_counts(rest, at - 1);
    }
}

/// The daemon's program is the one that the environment names; without one it
/// is that of development in its own build, and otherwise the one that stands
/// next to the application.
pub proof fn the_daemon_is_found_in_order(files: DaemonFiles)
    ensures
        ({
            let path = files.path();
            let known = !files.named && files.current_error is None;
            let debug = known && files.development && files.in_debug;
            let beside = known && !debug && files.sibling is Some && files.sibling_is_file;
            &&& path == DaemonPathView::Named <==> files.named
            &&& path == DaemonPathView::InDebug <==> debug
            &&& path == DaemonPathView::Sibling <==> beside
            &&& path is Missing <==> !files.named && !debug && !beside
        }),
{
}

// ── The link to a runtime ──────────────────────────────────────────────────

/// Whether an event was seen before: its position is not behind the last seen
/// of the same runtime and epoch.
pub open spec fn seen_before(seen: Option<RuntimeEventCursor>, event: RuntimeEventCursor) -> bool {
    seen is Some && seen->0.runtime_id == event.runtime_id && seen->0.epoch == event.epoch
        && event.sequence <= seen->0.sequence
}

/// A link that listens passes on every event that was not seen before, and no
/// other; the end of the process is passed on last.
pub proof fn every_new_event_is_passed_on(
    link: Link,
    cursor: RuntimeEventCursor,
    event: DriverEvent,
)
    requires
        link.phase == LinkPhase::Listening,
    ensures
        ({
            let (phase, step) = link.led(LinkInput::Delivered { cursor, event });
            let seen = seen_before(link.seen, cursor);
            &&& seen ==> phase == LinkPhase::Listening && step is Nothing
            &&& !seen && event is ProcessExited ==> phase == LinkPhase::Over && step
                == (LinkStep::ForwardLast { event, cursor })
            &&& !seen && !(event is ProcessExited) ==> phase == LinkPhase::Listening && step
                == (LinkStep::Forward { event, cursor })
        }),
{
}

/// A link that lost its connection waits for another, asks there for its
/// runtime, and listens again where it is there; where another runtime is, its
/// own has ended. A link that is no longer wanted stops.
pub proof fn a_lost_link_is_made_again(link: Link, runtime_id: Option<Id>)
    ensures
        link.phase == LinkPhase::Listening ==> {
            &&& link.led(LinkInput::Disconnected { closed: false }) == (
                LinkPhase::Waiting,
                LinkStep::Wait,
            )
            &&& link.led(LinkInput::Disconnected { closed: true }) == (
                LinkPhase::Over,
                LinkStep::Leave,
            )
            &&& link.led(LinkInput::Shutdown) == (LinkPhase::Over, LinkStep::Stop)
            &&& link.led(LinkInput::ReceiverGone) == (LinkPhase::Over, LinkStep::Stop)
        },
        link.phase == LinkPhase::Waiting ==> {
            &&& link.led(LinkInput::Connection { same: false }) == (
                LinkPhase::Attaching,
                LinkStep::Attach,
            )
            &&& link.led(LinkInput::Connection { same: true }) == (
                LinkPhase::Waiting,
                LinkStep::Nothing,
            )
            &&& link.led(LinkInput::Shutdown) == (LinkPhase::Over, LinkStep::Stop)
            &&& link.led(LinkInput::SupervisorGone) == (LinkPhase::Over, LinkStep::Stop)
        },
        link.phase == LinkPhase::Attaching ==> {
            let reply = AttachReply::Runtime { runtime_id };
            &&& link.led(LinkInput::Attached { reply }) == if runtime_id == Some(link.runtime_id) {
                (LinkPhase::Listening, LinkStep::Resubscribe)
            } else {
                (LinkPhase::Over, LinkStep::ReportExit)
            }
            &&& link.led(LinkInput::Attached { reply: AttachReply::Failed }) == (
                LinkPhase::Listening,
                LinkStep::Adopt,
            )
            &&& link.led(LinkInput::Attached { reply: AttachReply::Other }) == (
                LinkPhase::Over,
                LinkStep::ReportInvalid,
            )
        },
{
}

// ── The replacement of an install ──────────────────────────────────────────

/// The course of an update: the installed build is set aside and written out
/// before the staged one takes its place, and that is written out before it is
/// started and awaited.
pub proof fn an_update_takes_its_course(update: UpdateView, error: Seq<char>)
    ensures
        ({
            let done = OutcomeView::Done;
            let failed = OutcomeView::Failed { error };
            let next = update.after(done);
            let asks = update.asks();
            &&& asks == (ActionView::Reserve { place: Place::Backup }) ==> next.asks() == (
            ActionView::Move { from: Place::Install, to: Place::Backup }) && update.after(
                failed,
            ).asks() == (ActionView::Finish { reason: Some(error) })
            &&& asks == (ActionView::Move { from: Place::Install, to: Place::Backup }) ==> {
                &&& next.asks() is Sync
                &&& next.after(done).asks() == (ActionView::Move {
                    from: Place::Staged,
                    to: Place::Install,
                })
                &&& update.after(failed).asks() == (ActionView::Record {
                    message: "could not preserve the current Kerenzikov install"@ + ": "@ + error,
                })
            }
            &&& asks == (ActionView::Move { from: Place::Staged, to: Place::Install }) ==> {
                &&& next.asks() is Sync
                &&& next.after(done).asks() == (ActionView::Reserve { place: Place::Ready })
                &&& update.after(failed).asks() == (ActionView::Move {
                    from: Place::Backup,
                    to: Place::Install,
                })
            }
            &&& asks == (ActionView::Reserve { place: Place::Ready }) ==> next.asks() == (
            ActionView::Launch { awaited: true })
            &&& asks == (ActionView::Launch { awaited: true }) ==> next.asks() is Await
        }),
{
}

/// An update that failed is written down, and the build that is kept is started
/// again before the failure is told, whether it could be written down or not.
pub proof fn a_failure_is_recorded_and_told(update: UpdateView, outcome: OutcomeView)
    requires
        update.asks() is Record,
    ensures
        ({
            let next = update.after(outcome);
            let told = next.after(OutcomeView::Done);
            &&& next.asks() == (ActionView::Launch { awaited: false })
            &&& told.asks() == (ActionView::Finish { reason: Some(update.message) })
            &&& update.asks()->message == update.message
        }),
{
}

/// What is awaited of a new build: once it reports, the previous one is
/// removed; where it ends first it is rolled back with the reason; where it
/// does not report in time both are kept.
pub proof fn a_new_build_is_awaited(update: UpdateView, status: Seq<char>)
    requires
        update.asks() is Await,
    ensures
        ({
            let reported = update.after(OutcomeView::Done);
            let ended = update.after(OutcomeView::Exited { status });
            let late = update.after(OutcomeView::TimedOut);
            &&& reported.asks() == (ActionView::Remove { place: Place::Ready })
            &&& reported.after(OutcomeView::Done).asks() == (ActionView::Remove {
                place: Place::Backup,
            })
            &&& ended.asks() == (ActionView::Reserve { place: Place::Failed })
            &&& ended.message
                == "the updated Kerenzikov build exited before its window opened ("@ + status
                + ")"@
            &&& late.asks() is ReportRetained
            &&& late.after(OutcomeView::Done).asks() == (ActionView::Finish { reason: None })
        }),
{
}

// ── Paths ──────────────────────────────────────────────────────────────────

proof fn lemma_last_slash(path: Seq<char>, n: int, at: int)
    requires
        0 <= n <= path.len(),
        -1 <= at < n,
        at >= 0 ==> path[at] == '/',
        forall|i: int| at < i < n ==> #[trigger] path[i] != '/',
    ensures
        paths::last_slash(path, n) == at,
    decreases n,
{
    if n > 0 && at < n - 1 {
        assert(path[n - 1] != '/');
        lemma_last_slash(path, n - 1, at);
    }
}

/// A path goes one part further with each name behind a slash; a dot there is
/// no part.
pub proof fn a_path_goes_on_by_names(path: Seq<char>, name: Seq<char>)
    requires
        name.len() > 0,
        forall|i: int| 0 <= i < name.len() ==> #[trigger] name[i] != '/',
    ensures
        ({
            let longer = path.push('/') + name;
            &&& paths::parts(longer) == if name == seq!['.'] {
                paths::parts(path)
            } else {
                paths::parts(path).push(name)
            }
            &&& paths::last_part(longer) == name
            &&& paths::leading_part(longer) == path
        }),
{
    let longer = path.push('/') + name;
    let slash = path.len() as int;
    assert forall|i: int| slash < i < longer.len() implies #[trigger] longer[i] != '/' by {
        assert(longer[i] == name[i - slash - 1]);
    }
    lemma_last_slash(longer, longer.len() as int, slash);
    assert(longer.skip(slash + 1) =~= name);
    assert(longer.take(slash) =~= path);
}

} // verus!
