//! Durations as text: a sentence for work that is done, a compact label for
//! work that is still running.
use crate::i18n;
use crate::i18n::Catalog;
use crate::model::TurnStatus;
use crate::model::{Id, TurnView};
use crate::session::AgentSession;
use vstd::prelude::*;

verus! {

/// A count with its unit, in the singular for exactly one.
pub open spec fn unit_text(
    entries: Seq<(Seq<char>, Seq<char>)>,
    value: nat,
    singular_key: Seq<char>,
    plural_key: Seq<char>,
) -> Seq<char> {
    i18n::counted(
        entries,
        if value == 1 {
            singular_key
        } else {
            plural_key
        },
        value,
    )
}

/// Two counts next to each other.
pub open spec fn two_units(
    entries: Seq<(Seq<char>, Seq<char>)>,
    first: Seq<char>,
    second: Seq<char>,
) -> Seq<char> {
    i18n::localized(
        entries,
        "duration.two_units"@,
        seq![i18n::argument("first"@, first), i18n::argument("second"@, second)],
    )
}

/// A duration in words, to the second below an hour and to the minute above;
/// a second unit that would read zero is left out.
pub open spec fn worked_duration(entries: Seq<(Seq<char>, Seq<char>)>, seconds: nat) -> Seq<char> {
    let second_text = |value: nat|
        unit_text(entries, value, "duration.second"@, "duration.seconds"@);
    let minute_text = |value: nat|
        unit_text(entries, value, "duration.minute"@, "duration.minutes"@);
    let hour_text = |value: nat| unit_text(entries, value, "duration.hour"@, "duration.hours"@);
    if seconds < 60 {
        second_text(seconds)
    } else if seconds < 3600 {
        if seconds % 60 == 0 {
            minute_text(seconds / 60)
        } else {
            two_units(entries, minute_text(seconds / 60), second_text(seconds % 60))
        }
    } else if (seconds % 3600) / 60 == 0 {
        hour_text(seconds / 3600)
    } else {
        two_units(entries, hour_text(seconds / 3600), minute_text((seconds % 3600) / 60))
    }
}

/// A duration in short units, to the second below an hour and to the minute
/// above.
pub open spec fn working_elapsed(entries: Seq<(Seq<char>, Seq<char>)>, seconds: nat) -> Seq<char> {
    let second_text = |value: nat| i18n::counted(entries, "duration.seconds_short"@, value);
    let minute_text = |value: nat| i18n::counted(entries, "duration.minutes_short"@, value);
    let hour_text = |value: nat| i18n::counted(entries, "duration.hours_short"@, value);
    if seconds < 60 {
        second_text(seconds)
    } else if seconds < 3600 {
        if seconds % 60 == 0 {
            minute_text(seconds / 60)
        } else {
            two_units(entries, minute_text(seconds / 60), second_text(seconds % 60))
        }
    } else if (seconds % 3600) / 60 == 0 {
        hour_text(seconds / 3600)
    } else {
        two_units(entries, hour_text(seconds / 3600), minute_text((seconds % 3600) / 60))
    }
}

fn unit(catalog: &Catalog, value: u64, singular_key: &str, plural_key: &str) -> (text: String)
    ensures
        text@ == unit_text(catalog@, value as nat, singular_key@, plural_key@),
{
    if value == 1 {
        catalog.text_with_count(singular_key, value)
    } else {
        catalog.text_with_count(plural_key, value)
    }
}

fn two(catalog: &Catalog, first: &String, second: &String) -> (text: String)
    ensures
        text@ == two_units(catalog@, first@, second@),
{
    catalog.text_with_two("duration.two_units", "first", first.as_str(), "second", second.as_str())
}

/// How long settled work took, in words.
pub fn format_worked_duration(catalog: &Catalog, seconds: u64) -> (text: String)
    ensures
        text@ == worked_duration(catalog@, seconds as nat),
{
    if seconds < 60 {
        unit(catalog, seconds, "duration.second", "duration.seconds")
    } else if seconds < 3600 {
        let minutes = unit(catalog, seconds / 60, "duration.minute", "duration.minutes");
        if seconds % 60 == 0 {
            minutes
        } else {
            let rest = unit(catalog, seconds % 60, "duration.second", "duration.seconds");
            two(catalog, &minutes, &rest)
        }
    } else {
        let hours = unit(catalog, seconds / 3600, "duration.hour", "duration.hours");
        let minutes: u64 = (seconds % 3600) / 60;
        if minutes == 0 {
            hours
        } else {
            let rest = unit(catalog, minutes, "duration.minute", "duration.minutes");
            two(catalog, &hours, &rest)
        }
    }
}

/// How long live work has taken, in short units.
pub fn format_working_elapsed(catalog: &Catalog, seconds: u64) -> (text: String)
    ensures
        text@ == working_elapsed(catalog@, seconds as nat),
{
    if seconds < 60 {
        catalog.text_with_count("duration.seconds_short", seconds)
    } else if seconds < 3600 {
        let minutes = catalog.text_with_count("duration.minutes_short", seconds / 60);
        if seconds % 60 == 0 {
            minutes
        } else {
            let rest = catalog.text_with_count("duration.seconds_short", seconds % 60);
            two(catalog, &minutes, &rest)
        }
    } else {
        let hours = catalog.text_with_count("duration.hours_short", seconds / 3600);
        let minutes: u64 = (seconds % 3600) / 60;
        if minutes == 0 {
            hours
        } else {
            let rest = catalog.text_with_count("duration.minutes_short", minutes);
            two(catalog, &hours, &rest)
        }
    }
}

/// The first turn with the given identity.
pub open spec fn first_turn(turns: Seq<TurnView>, turn_id: Id) -> Option<TurnView>
    decreases turns.len(),
{
    if turns.len() == 0 {
        None
    } else if turns[0].id == turn_id {
        Some(turns[0])
    } else {
        first_turn(turns.skip(1), turn_id)
    }
}

/// The first turn with the given identity, by its place.
pub fn find_turn(session: &AgentSession, turn_id: Id) -> (found: Option<usize>)
    ensures
        match found {
            Some(i) => i < session.turns@.len() && first_turn(session@.turns, turn_id) == Some(
                session.turns@[i as int]@,
            ),
            None => first_turn(session@.turns, turn_id) is None,
        },
{
    let ghost turns = session@.turns;
    let mut i: usize = 0;
    assert(turns.skip(0) == turns);
    while i < session.turns.len()
        invariant
            i <= session.turns@.len(),
            turns == session@.turns,
            first_turn(turns, turn_id) == first_turn(turns.skip(i as int), turn_id),
        decreases session.turns@.len() - i,
    {
        assert(turns.skip(i as int)[0] == session.turns@[i as int]@);
        assert(turns.skip(i as int).skip(1) == turns.skip(i + 1));
        if session.turns[i].id == turn_id {
            return Some(i);
        }
        i += 1;
    }
    assert(turns.skip(i as int).len() == 0);
    None
}

/// How long a turn has taken by `now`: at least one second.
pub open spec fn turn_seconds(turn: TurnView, now: u64) -> nat {
    let end = match turn.completed_at {
        Some(completed) => completed,
        None => now,
    };
    if end > turn.started_at + 1 {
        (end - turn.started_at) as nat
    } else {
        1
    }
}

/// The label of a turn's fold.
pub open spec fn fold_label(
    entries: Seq<(Seq<char>, Seq<char>)>,
    turns: Seq<TurnView>,
    turn_id: Id,
    now: u64,
) -> Seq<char> {
    match first_turn(turns, turn_id) {
        Some(turn) => i18n::localized(
            entries,
            if turn.status == TurnStatus::Interrupted {
                "transcript.you_stopped_after"@
            } else {
                "transcript.worked_for"@
            },
            seq![
                i18n::argument("duration"@, worked_duration(entries, turn_seconds(turn, now))),
            ],
        ),
        None => i18n::plain(entries, "transcript.worked"@),
    }
}

/// The label of a turn's fold: how long the work took, and whether the user
/// stopped it. A turn that has not ended counts up to `now`.
pub fn turn_fold_label(catalog: &Catalog, session: &AgentSession, turn_id: Id, now: u64) -> (label:
    String)
    ensures
        label@ == fold_label(catalog@, session@.turns, turn_id, now),
{
    match find_turn(session, turn_id) {
        Some(i) => {
            let turn = &session.turns[i];
            let end: u64 = match turn.completed_at {
                Some(completed) => completed,
                None => now,
            };
            let elapsed: u64 = end.saturating_sub(turn.started_at);
            let seconds: u64 = if elapsed > 1 {
                elapsed
            } else {
                1
            };
            assert(seconds as nat == turn_seconds(turn@, now));
            let duration = format_worked_duration(catalog, seconds);
            if turn.status == TurnStatus::Interrupted {
                catalog.text_with("transcript.you_stopped_after", "duration", duration.as_str())
            } else {
                catalog.text_with("transcript.worked_for", "duration", duration.as_str())
            }
        },
        None => catalog.text("transcript.worked"),
    }
}

} // verus!
