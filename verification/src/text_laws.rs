//! What the handling of texts is for: trimming, joining, numbers, templates and
//! durations, said of the characters that come out.
use crate::duration;
use crate::i18n;
use crate::i18n::Argument;
use crate::model::{Id, TurnStatus, TurnView};
use crate::text;
use vstd::prelude::*;

verus! {

// ── Trimming and joining ───────────────────────────────────────────────────

proof fn lemma_trim_start(given: Seq<char>)
    ensures
        ({
            let rest = text::trim_start(given);
            let cut = given.len() - rest.len();
            &&& 0 <= cut
            &&& rest == given.skip(cut)
            &&& text::blank(given.take(cut))
            &&& rest.len() > 0 ==> !text::is_whitespace(rest[0])
        }),
    decreases given.len(),
{
    if given.len() > 0 && text::is_whitespace(given[0]) {
        let shorter = given.skip(1);
        lemma_trim_start(shorter);
        let rest = text::trim_start(given);
        let cut = given.len() - rest.len();
        assert(shorter.skip(cut - 1) =~= given.skip(cut));
        assert forall|i: int| 0 <= i < cut implies text::is_whitespace(
            #[trigger] given.take(cut)[i],
        ) by {
            if i > 0 {
                assert(shorter.take(cut - 1)[i - 1] == given[i]);
            }
        }
    } else {
        assert(given.skip(0) =~= given);
    }
}

proof fn lemma_trim_end(given: Seq<char>)
    ensures
        ({
            let rest = text::trim_end(given);
            &&& rest.len() <= given.len()
            &&& rest == given.take(rest.len() as int)
            &&& text::blank(given.skip(rest.len() as int))
            &&& rest.len() > 0 ==> !text::is_whitespace(rest.last())
        }),
    decreases given.len(),
{
    if given.len() > 0 && text::is_whitespace(given.last()) {
        let shorter = given.drop_last();
        lemma_trim_end(shorter);
        let n = text::trim_end(given).len() as int;
        assert(shorter.take(n) =~= given.take(n));
        assert forall|i: int| 0 <= i < given.len() - n implies text::is_whitespace(
            #[trigger] given.skip(n)[i],
        ) by {
            if n + i < given.len() - 1 {
                assert(shorter.skip(n)[i] == given[n + i]);
            }
        }
    } else {
        assert(given.take(given.len() as int) =~= given);
    }
}

/// A trimmed text is what stands between the white space at the ends: nothing
/// is cut but white space, and none is left at either end.
pub proof fn trimming_cuts_white_space(given: Seq<char>)
    ensures
        exists|from: int, to: int|
            #![trigger given.subrange(from, to)]
            {
                &&& 0 <= from <= to <= given.len()
                &&& text::trimmed(given) == given.subrange(from, to)
                &&& forall|i: int|
                    0 <= i < from || to <= i < given.len() ==> text::is_whitespace(
                        #[trigger] given[i],
                    )
                &&& from < to ==> !text::is_whitespace(given[from]) && !text::is_whitespace(
                    given[to - 1],
                )
            },
{
    lemma_trim_start(given);
    let rest = text::trim_start(given);
    let from = given.len() - rest.len();
    lemma_trim_end(rest);
    let to = from + text::trim_end(rest).len();
    assert(text::trimmed(given) =~= given.subrange(from, to));
    assert forall|i: int| 0 <= i < from || to <= i < given.len() implies text::is_whitespace(
        #[trigger] given[i],
    ) by {
        if i < from {
            assert(given.take(from)[i] == given[i]);
        } else {
            assert(rest.skip(to - from)[i - to] == given[i]);
        }
    }
}

/// Parts are joined in order, with the separator between each two and nowhere
/// else.
pub proof fn parts_are_joined_in_order(
    parts: Seq<Seq<char>>,
    part: Seq<char>,
    separator: Seq<char>,
)
    ensures
        text::joined(Seq::empty(), separator).len() == 0,
        text::joined(parts.push(part), separator) == if parts.len() == 0 {
            part
        } else {
            text::joined(parts, separator) + separator + part
        },
{
    assert(parts.push(part).drop_last() =~= parts);
}

/// A text is cut to the longest beginning that fits a number of bytes.
pub proof fn a_cut_text_is_the_longest_that_fits(given: Seq<char>, limit: nat)
    ensures
        ({
            let cut = text::byte_prefix(given, limit);
            &&& cut.is_prefix_of(given)
            &&& cut.len() > 0 ==> text::byte_len(cut) <= limit
            &&& cut.len() < given.len() ==> text::byte_len(given.take(cut.len() as int + 1)) > limit
        }),
    decreases given.len(),
{
    if given.len() > 0 && text::byte_len(given) > limit {
        let shorter = given.drop_last();
        a_cut_text_is_the_longest_that_fits(shorter, limit);
        let cut = text::byte_prefix(given, limit);
        if cut.len() < shorter.len() {
            assert(shorter.take(cut.len() as int + 1) =~= given.take(cut.len() as int + 1));
        } else {
            assert(given.take(given.len() as int) =~= given);
        }
        assert(cut =~= given.take(cut.len() as int));
    } else {
        assert(given.take(given.len() as int) =~= given);
    }
}

// ── Numbers ────────────────────────────────────────────────────────────────

/// A number is written in digits that mean it, without zeros before them.
pub proof fn digits_mean_their_number(value: nat)
    ensures
        ({
            let digits = text::decimal_digits(value);
            &&& digits.len() > 0
            &&& text::all_digits(digits)
            &&& text::digits_value(digits) == value
            &&& digits.len() > 1 ==> digits[0] != '0'
        }),
    decreases value,
{
    if value >= 10 {
        digits_mean_their_number(value / 10);
        let above = text::decimal_digits(value / 10);
        let digits = text::decimal_digits(value);
        assert(digits.drop_last() =~= above);
        assert(digits[0] == above[0]);
        assert forall|i: int| 0 <= i < digits.len() implies '0' <= #[trigger] digits[i] <= '9' by {
            if i < above.len() {
                assert(digits[i] == above[i]);
            }
        }
        if value / 10 >= 10 {
            digits_mean_their_number(value / 10 / 10);
        }
        if above.len() == 1 {
            assert(value / 10 < 10);
            assert(above[0] == text::digit_char(value / 10));
        }
    } else {
        let digits = text::decimal_digits(value);
        assert(digits.drop_last() =~= Seq::empty());
        assert(text::digits_value(digits.drop_last()) == 0);
    }
}

/// A written number is read back as itself where it fits, with or without a
/// plus before it; nothing that is no digit is read.
pub proof fn a_written_number_is_read_back(value: nat, limit: nat, given: Seq<char>)
    ensures
        text::number_within(text::decimal_digits(value), limit) == if value <= limit {
            Some(value)
        } else {
            None
        },
        text::number_within(seq!['+'] + text::decimal_digits(value), limit) == if value <= limit {
            Some(value)
        } else {
            None
        },
        text::number_within(given, limit) matches Some(read) ==> read <= limit && given.len() > 0
            && text::all_digits(given.skip(1)) && ('0' <= given[0] <= '9' || given[0] == '+'),
{
    digits_mean_their_number(value);
    let digits = text::decimal_digits(value);
    assert('0' <= digits[0] <= '9');
    assert((seq!['+'] + digits).skip(1) =~= digits);
    if text::number_within(given, limit) is Some {
        assert forall|i: int| 0 <= i < given.skip(1).len() implies '0' <= #[trigger] given.skip(
            1,
        )[i] <= '9' by {
            if given[0] != '+' {
                assert('0' <= given[i + 1] <= '9');
            }
        }
    }
}

/// Lower case in ASCII moves the capital letters and nothing else, and moving
/// them twice is moving them once.
pub proof fn lower_case_moves_capitals(given: Seq<char>)
    ensures
        ({
            let lower = text::ascii_lowercase_of(given);
            &&& lower.len() == given.len()
            &&& forall|i: int|
                0 <= i < given.len() && !('A' <= (#[trigger] given[i]) <= 'Z') ==> lower[i]
                    == given[i]
            &&& forall|i: int|
                0 <= i < given.len() && 'A' <= (#[trigger] given[i]) <= 'Z' ==> lower[i] as int
                    == given[i] as int + 32
            &&& text::ascii_lowercase_of(lower) == lower
        }),
{
    let lower = text::ascii_lowercase_of(given);
    assert forall|i: int| 0 <= i < given.len() && 'A' <= (#[trigger] given[i])
        <= 'Z' implies lower[i] as int == given[i] as int + 32 by {
        let c = given[i];
        let code: u8 = c as u8;
        assert(code as int == c as int);
    }
    assert forall|i: int| 0 <= i < given.len() implies !('A' <= (#[trigger] lower[i]) <= 'Z') by {
        let c = given[i];
        if 'A' <= c <= 'Z' {
            assert(lower[i] as int == c as int + 32);
        }
    }
    assert(text::ascii_lowercase_of(lower) =~= lower);
}

// ── Templates ──────────────────────────────────────────────────────────────

/// A key has the first template that the catalog holds for it, and stands for
/// itself where there is none.
pub proof fn a_key_has_its_first_template(
    entries: Seq<(Seq<char>, Seq<char>)>,
    key: Seq<char>,
    at: int,
)
    requires
        0 <= at <= entries.len(),
        at < entries.len() ==> entries[at].0 == key,
        forall|k: int| 0 <= k < at ==> (#[trigger] entries[k]).0 != key,
    ensures
        i18n::template_for(entries, key) == if at < entries.len() {
            entries[at].1
        } else {
            key
        },
    decreases entries.len(),
{
    if entries.len() > 0 && at > 0 {
        assert(entries[0].0 != key);
        let rest = entries.skip(1);
        assert forall|k: int| 0 <= k < at - 1 implies (#[trigger] rest[k]).0 != key by {
            assert(entries[k + 1].0 != key);
        }
        a_key_has_its_first_template(rest, key, at - 1);
    }
}

proof fn lemma_brace_shifted(template: Seq<char>, from: int, k: int)
    requires
        0 <= k <= from <= template.len(),
    ensures
        i18n::closing_brace(template, from) == i18n::closing_brace(template.skip(k), from - k) + k,
        from <= i18n::closing_brace(template, from) <= template.len(),
    decreases template.len() - from,
{
    if from < template.len() && template[from] != '}' {
        lemma_brace_shifted(template, from + 1, k);
    }
}

proof fn lemma_filled_shifted(template: Seq<char>, arguments: Seq<Argument>, at: int, k: int)
    requires
        0 <= k <= at <= template.len(),
    ensures
        i18n::filled_from(template, arguments, at) == i18n::filled_from(
            template.skip(k),
            arguments,
            at - k,
        ),
    decreases template.len() - at,
{
    let rest = template.skip(k);
    if at < template.len() {
        if at + 2 <= template.len() {
            lemma_brace_shifted(template, at + 2, k);
        }
        if template[at] == '%' && at + 1 < template.len() && template[at + 1] == '{'
            && i18n::closing_brace(template, at + 2) < template.len() {
            let close = i18n::closing_brace(template, at + 2);
            assert(template.subrange(at + 2, close) =~= rest.subrange(at + 2 - k, close - k));
            assert(template.subrange(at, close + 1) =~= rest.subrange(at - k, close + 1 - k));
            lemma_filled_shifted(template, arguments, close + 1, k);
        } else {
            lemma_filled_shifted(template, arguments, at + 1, k);
        }
    }
}

proof fn lemma_brace_found(template: Seq<char>, from: int, close: int)
    requires
        0 <= from <= close < template.len(),
        template[close] == '}',
        forall|i: int| from <= i < close ==> #[trigger] template[i] != '}',
    ensures
        i18n::closing_brace(template, from) == close,
    decreases close - from,
{
    if from < close {
        lemma_brace_found(template, from + 1, close);
    }
}

/// A name in a template gives way to its argument, and stays as it stands where
/// there is none; the rest of the template follows.
pub proof fn a_name_gives_way_to_its_argument(
    name: Seq<char>,
    rest: Seq<char>,
    arguments: Seq<Argument>,
)
    requires
        forall|i: int| 0 <= i < name.len() ==> #[trigger] name[i] != '}',
    ensures
        ({
            let marked = seq!['%', '{'] + name + seq!['}'];
            i18n::filled(marked + rest, arguments) == (match i18n::argument_value(
                arguments,
                name,
            ) {
                Some(value) => value,
                None => marked,
            }) + i18n::filled(rest, arguments)
        }),
{
    let marked = seq!['%', '{'] + name + seq!['}'];
    let template = marked + rest;
    let close = 2 + name.len() as int;
    assert forall|i: int| 2 <= i < close implies #[trigger] template[i] != '}' by {
        assert(template[i] == name[i - 2]);
    }
    lemma_brace_found(template, 2, close);
    assert(template.subrange(2, close) =~= name);
    assert(template.subrange(0, close + 1) =~= marked);
    lemma_filled_shifted(template, arguments, close + 1, close + 1);
    assert(template.skip(close + 1) =~= rest);
}

/// What is no name in a template stays as it is.
pub proof fn plain_text_stays(plain: Seq<char>, rest: Seq<char>, arguments: Seq<Argument>)
    requires
        forall|i: int| 0 <= i < plain.len() ==> #[trigger] plain[i] != '%',
    ensures
        i18n::filled(plain + rest, arguments) == plain + i18n::filled(rest, arguments),
        i18n::filled(plain, arguments) == plain,
    decreases plain.len(),
{
    let template = plain + rest;
    if plain.len() == 0 {
        assert(template =~= rest);
        assert(plain + i18n::filled(rest, arguments) =~= i18n::filled(rest, arguments));
        assert(i18n::filled(plain, arguments) =~= plain);
    } else {
        assert(template[0] == plain[0]);
        let shorter = plain.skip(1);
        assert forall|i: int| 0 <= i < shorter.len() implies #[trigger] shorter[i] != '%' by {
            assert(plain[i + 1] != '%');
        }
        plain_text_stays(shorter, rest, arguments);
        lemma_filled_shifted(template, arguments, 1, 1);
        assert(template.skip(1) =~= shorter + rest);
        lemma_filled_shifted(plain, arguments, 1, 1);
        assert(seq![plain[0]] + (shorter + i18n::filled(rest, arguments)) =~= plain
            + i18n::filled(rest, arguments));
        assert(seq![plain[0]] + shorter =~= plain);
    }
}

/// An argument is the first one of its name.
pub proof fn an_argument_is_the_first_of_its_name(
    arguments: Seq<Argument>,
    name: Seq<char>,
    at: int,
)
    requires
        0 <= at <= arguments.len(),
        at < arguments.len() ==> arguments[at].name == name,
        forall|k: int| 0 <= k < at ==> (#[trigger] arguments[k]).name != name,
    ensures
        i18n::argument_value(arguments, name) == if at < arguments.len() {
            Some(arguments[at].value)
        } else {
            None
        },
    decreases arguments.len(),
{
    if arguments.len() > 0 && at > 0 {
        assert(arguments[0].name != name);
        let rest = arguments.skip(1);
        assert forall|k: int| 0 <= k < at - 1 implies (#[trigger] rest[k]).name != name by {
            assert(arguments[k + 1].name != name);
        }
        an_argument_is_the_first_of_its_name(rest, name, at - 1);
    }
}

// ── Durations ──────────────────────────────────────────────────────────────

/// One unit of a duration, by its count.
pub open spec fn unit(
    entries: Seq<(Seq<char>, Seq<char>)>,
    count: nat,
    one: Seq<char>,
    many: Seq<char>,
) -> Seq<char> {
    if count == 1 {
        i18n::counted(entries, one, 1)
    } else {
        i18n::counted(entries, many, count)
    }
}

/// A duration is worded by its hours and minutes, by its minutes and seconds
/// below an hour, and by its seconds below a minute; a second unit that is zero
/// is left out.
pub proof fn a_duration_has_two_units(
    entries: Seq<(Seq<char>, Seq<char>)>,
    hours: nat,
    minutes: nat,
    seconds: nat,
)
    requires
        minutes < 60,
        seconds < 60,
    ensures
        ({
            let worded = duration::worked_duration(entries, 3600 * hours + 60 * minutes + seconds);
            let h = unit(entries, hours, "duration.hour"@, "duration.hours"@);
            let m = unit(entries, minutes, "duration.minute"@, "duration.minutes"@);
            let s = unit(entries, seconds, "duration.second"@, "duration.seconds"@);
            let two = "duration.two_units"@;
            &&& hours == 0 && minutes == 0 ==> worded == s
            &&& hours == 0 && minutes > 0 && seconds == 0 ==> worded == m
            &&& hours == 0 && minutes > 0 && seconds > 0 ==> worded == i18n::localized(
                entries,
                two,
                seq![
                    (Argument { name: "first"@, value: m }),
                    (Argument { name: "second"@, value: s }),
                ],
            )
            &&& hours > 0 && minutes == 0 ==> worded == h
            &&& hours > 0 && minutes > 0 ==> worded == i18n::localized(
                entries,
                two,
                seq![
                    (Argument { name: "first"@, value: h }),
                    (Argument { name: "second"@, value: m }),
                ],
            )
        }),
        ({
            let worded = duration::working_elapsed(entries, 3600 * hours + 60 * minutes + seconds);
            let h = i18n::counted(entries, "duration.hours_short"@, hours);
            let m = i18n::counted(entries, "duration.minutes_short"@, minutes);
            let s = i18n::counted(entries, "duration.seconds_short"@, seconds);
            let two = "duration.two_units"@;
            &&& hours == 0 && minutes == 0 ==> worded == s
            &&& hours == 0 && minutes > 0 && seconds == 0 ==> worded == m
            &&& hours == 0 && minutes > 0 && seconds > 0 ==> worded == i18n::localized(
                entries,
                two,
                seq![
                    (Argument { name: "first"@, value: m }),
                    (Argument { name: "second"@, value: s }),
                ],
            )
            &&& hours > 0 && minutes == 0 ==> worded == h
            &&& hours > 0 && minutes > 0 ==> worded == i18n::localized(
                entries,
                two,
                seq![
                    (Argument { name: "first"@, value: h }),
                    (Argument { name: "second"@, value: m }),
                ],
            )
        }),
{
    let total = 3600 * hours + 60 * minutes + seconds;
    assert(total / 3600 == hours);
    assert(total % 3600 == 60 * minutes + seconds);
    assert((60 * minutes + seconds) / 60 == minutes);
    assert((60 * minutes + seconds) % 60 == seconds);
}

/// A turn lasts until it ended, or until now while it runs; never less than a
/// second.
pub proof fn a_turn_lasts_at_least_a_second(turn: TurnView, now: u64)
    ensures
        ({
            let end = if turn.completed_at is Some {
                turn.completed_at->0
            } else {
                now
            };
            let lasted = duration::turn_seconds(turn, now);
            &&& lasted >= 1
            &&& end >= turn.started_at + 1 ==> lasted == end - turn.started_at
            &&& end <= turn.started_at ==> lasted == 1
        }),
{
}

/// A folded turn is labelled by its duration, as worked or as stopped by the
/// user; one that is not known only as work.
pub proof fn a_fold_tells_how_long(
    entries: Seq<(Seq<char>, Seq<char>)>,
    turns: Seq<TurnView>,
    turn_id: Id,
    now: u64,
    at: int,
)
    requires
        0 <= at <= turns.len(),
        at < turns.len() ==> turns[at].id == turn_id,
        forall|k: int| 0 <= k < at ==> (#[trigger] turns[k]).id != turn_id,
    ensures
        ({
            let label = duration::fold_label(entries, turns, turn_id, now);
            if at == turns.len() {
                label == i18n::plain(entries, "transcript.worked"@)
            } else {
                let lasted = duration::worked_duration(
                    entries,
                    duration::turn_seconds(turns[at], now),
                );
                label == i18n::localized(
                    entries,
                    if turns[at].status == TurnStatus::Interrupted {
                        "transcript.you_stopped_after"@
                    } else {
                        "transcript.worked_for"@
                    },
                    seq![(Argument { name: "duration"@, value: lasted })],
                )
            }
        }),
{
    lemma_first_turn(turns, turn_id, at);
}

proof fn lemma_first_turn(turns: Seq<TurnView>, turn_id: Id, at: int)
    requires
        0 <= at <= turns.len(),
        at < turns.len() ==> turns[at].id == turn_id,
        forall|k: int| 0 <= k < at ==> (#[trigger] turns[k]).id != turn_id,
    ensures
        duration::first_turn(turns, turn_id) == if at < turns.len() {
            Some(turns[at])
        } else {
            None
        },
    decreases turns.len(),
{
    if turns.len() > 0 && at > 0 {
        assert(turns[0].id != turn_id);
        let rest = turns.skip(1);
        assert forall|k: int| 0 <= k < at - 1 implies (#[trigger] rest[k]).id != turn_id by {
            assert(turns[k + 1].id != turn_id);
        }
        lemma_first_turn(rest, turn_id, at - 1);
    }
}

} // verus!
