//! What a step and a message show: code, names, counts, sections, menus and
//! footers, said of what the step or the message holds.
use crate::activity;
use crate::activity::{ActivityDisclosureSectionKind, KindCount, SectionView};
use crate::i18n;
use crate::messages;
use crate::messages::{
    AssistantMessageAction, FooterControlView, MessageBodyView, MessageContext, MessageMenuView,
    TileContent, UserMessageAction,
};
use crate::model::{
    ActivityKind, ActivityView, AttachmentView, FileChangeView, Id, MessageRole, MessageView,
    ReasoningView,
};
use crate::sidebar;
use crate::text;
use vstd::prelude::*;

verus! {

// ── Code ───────────────────────────────────────────────────────────────────

/// Whether a text holds no backtick.
pub open spec fn unfenced(given: Seq<char>) -> bool {
    forall|i: int| 0 <= i < given.len() ==> #[trigger] given[i] != '`'
}

proof fn lemma_fence_bounds(given: Seq<char>, from: int)
    requires
        0 <= from <= given.len(),
    ensures
        from <= activity::next_fence(given, from) <= given.len(),
        activity::next_fence(given, from) < given.len() ==> activity::next_fence(given, from) + 3
            <= given.len(),
    decreases given.len() - from,
{
    if from < given.len() && !activity::is_fence(given, from) {
        lemma_fence_bounds(given, from + 1);
    }
}

proof fn lemma_fence_shifted(given: Seq<char>, from: int, k: int)
    requires
        0 <= k <= from <= given.len(),
    ensures
        activity::next_fence(given, from) == activity::next_fence(given.skip(k), from - k) + k,
    decreases given.len() - from,
{
    if from < given.len() {
        let rest = given.skip(k);
        assert(activity::is_fence(given, from) == activity::is_fence(rest, from - k));
        if !activity::is_fence(given, from) {
            lemma_fence_shifted(given, from + 1, k);
        }
    }
}

proof fn lemma_segments_shifted(given: Seq<char>, from: int, k: int)
    requires
        0 <= k <= from <= given.len(),
    ensures
        activity::fence_segments(given, from) == activity::fence_segments(given.skip(k), from - k),
    decreases given.len() - from,
{
    lemma_fence_bounds(given, from);
    lemma_fence_shifted(given, from, k);
    let fence = activity::next_fence(given, from);
    assert(given.subrange(from, fence) =~= given.skip(k).subrange(from - k, fence - k));
    if fence < given.len() {
        lemma_segments_shifted(given, fence + 3, k);
    }
}

proof fn lemma_fence_found(given: Seq<char>, from: int, at: int)
    requires
        0 <= from <= at <= given.len(),
        at < given.len() ==> activity::is_fence(given, at),
        forall|i: int| from <= i < at ==> #[trigger] given[i] != '`',
    ensures
        activity::next_fence(given, from) == at,
    decreases at - from,
{
    if from < at {
        assert(given[from] != '`');
        lemma_fence_found(given, from + 1, at);
    }
}

/// Code between fences is a block of its own, without the line that opens it
/// and the white space at its end; blank code is none. What follows the fence
/// is looked through in the same way.
pub proof fn fenced_code_is_found(
    before: Seq<char>,
    info: Seq<char>,
    code: Seq<char>,
    rest: Seq<char>,
)
    requires
        unfenced(before),
        unfenced(info),
        unfenced(code),
        forall|i: int| 0 <= i < info.len() ==> #[trigger] info[i] != '\n',
    ensures
        ({
            let fence = seq!['`', '`', '`'];
            let content = before + fence + info.push('\n') + code + fence + rest;
            activity::code_blocks(activity::fence_segments(content, 0)) == (if text::blank(code) {
                Seq::empty()
            } else {
                seq![text::trim_end(code)]
            }) + activity::code_blocks(activity::fence_segments(rest, 0))
        }),
        activity::code_blocks(activity::fence_segments(before, 0)).len() == 0,
{
    let fence = seq!['`', '`', '`'];
    let inside = info.push('\n') + code;
    let content = before + fence + info.push('\n') + code + fence + rest;
    assert(content =~= before + fence + inside + fence + rest);
    let a = before.len() as int;
    let b = a + 3 + inside.len();
    assert(content[a] == '`' && content[a + 1] == '`' && content[a + 2] == '`');
    assert(content[b] == '`' && content[b + 1] == '`' && content[b + 2] == '`');
    assert forall|i: int| 0 <= i < a implies #[trigger] content[i] != '`' by {
        assert(content[i] == before[i]);
    }
    assert forall|i: int| a + 3 <= i < b implies #[trigger] content[i] != '`' by {
        let j = i - a - 3;
        if j < info.len() {
            assert(content[i] == info[j]);
        } else if j == info.len() {
            assert(content[i] == '\n');
        } else {
            assert(content[i] == code[j - info.len() - 1]);
        }
    }
    lemma_fence_found(content, 0, a);
    lemma_fence_found(content, a + 3, b);
    lemma_segments_shifted(content, b + 3, b + 3);
    assert(content.skip(b + 3) =~= rest);
    assert(content.subrange(0, a) =~= before);
    assert(content.subrange(a + 3, b) =~= inside);
    let tail = activity::fence_segments(rest, 0);
    let segments = activity::fence_segments(content, 0);
    assert(activity::fence_segments(content, a + 3) == seq![inside] + tail);
    assert(segments == seq![before] + activity::fence_segments(content, a + 3));
    assert(segments.skip(2) =~= tail);
    assert(segments[1] == inside);
    lemma_line_end(info, code, 0);
    assert(inside.skip(info.len() as int + 1) =~= code);
    lemma_fence_found(before, 0, a);
    lemma_some_segment(rest);
    assert(activity::fence_segments(before, 0) =~= seq![before.subrange(0, a)]);
}

proof fn lemma_some_segment(given: Seq<char>)
    ensures
        activity::fence_segments(given, 0).len() > 0,
{
}

proof fn lemma_line_end(info: Seq<char>, code: Seq<char>, from: int)
    requires
        0 <= from <= info.len(),
        forall|i: int| 0 <= i < info.len() ==> #[trigger] info[i] != '\n',
    ensures
        crate::streaming::line_end(info.push('\n') + code, from) == info.len(),
    decreases info.len() - from,
{
    let whole = info.push('\n') + code;
    if from < info.len() {
        assert(whole[from] == info[from]);
        lemma_line_end(info, code, from + 1);
    } else {
        assert(whole[from] == '\n');
    }
}

// ── Names ──────────────────────────────────────────────────────────────────

proof fn lemma_double(given: Seq<char>, n: int, at: int)
    requires
        0 <= n <= given.len(),
        -1 <= at < n,
        at >= 0 ==> at + 1 < given.len() && given[at] == '_' && given[at + 1] == '_',
        forall|i: int|
            at < i < n && i + 1 < given.len() ==> !(#[trigger] given[i] == '_' && given[i + 1]
                == '_'),
    ensures
        activity::last_double_underscore(given, n) == at,
    decreases n,
{
    if n > 0 && at < n - 1 {
        if n < given.len() {
            assert(!(given[n - 1] == '_' && given[n] == '_'));
        }
        lemma_double(given, n - 1, at);
    }
}

proof fn lemma_separator(given: Seq<char>, n: int, at: int)
    requires
        0 <= n <= given.len(),
        -1 <= at < n,
        at >= 0 ==> given[at] == ':' || given[at] == '.' || given[at] == '/',
        forall|i: int|
            at < i < n ==> (#[trigger] given[i]) != ':' && given[i] != '.' && given[i] != '/',
    ensures
        activity::last_separator(given, n) == at,
    decreases n,
{
    if n > 0 && at < n - 1 {
        assert(given[n - 1] != ':' && given[n - 1] != '.' && given[n - 1] != '/');
        lemma_separator(given, n - 1, at);
    }
}

/// What stands behind a double underscore, or everything where there is none.
pub open spec fn behind(whole: Seq<char>, double: int) -> Seq<char> {
    if double >= 0 {
        whole.skip(double + 2)
    } else {
        whole
    }
}

/// A tool's own name is what stands behind the last double underscore of its
/// full name, and of that what stands behind the last colon, dot or slash.
pub proof fn a_tool_is_named_by_its_leaf(name: Seq<char>, double: int, separator: int)
    requires
        ({
            let whole = text::trimmed(name);
            let tail = behind(whole, double);
            &&& -1 <= double < whole.len() || (double == -1 && whole.len() == 0)
            &&& double >= 0 ==> double + 1 < whole.len() && whole[double] == '_' && whole[double
                + 1] == '_'
            &&& forall|i: int|
                double < i && i + 1 < whole.len() ==> !(#[trigger] whole[i] == '_' && whole[i + 1]
                    == '_')
            &&& -1 <= separator < tail.len() || (separator == -1 && tail.len() == 0)
            &&& separator >= 0 ==> tail[separator] == ':' || tail[separator] == '.'
                || tail[separator] == '/'
            &&& forall|i: int|
                separator < i < tail.len() ==> (#[trigger] tail[i]) != ':' && tail[i] != '.'
                    && tail[i] != '/'
        }),
    ensures
        ({
            let whole = text::trimmed(name);
            let tail = behind(whole, double);
            activity::name_leaf(name) == tail.skip(separator + 1)
        }),
{
    let whole = text::trimmed(name);
    lemma_double(whole, whole.len() as int, double);
    let tail = behind(whole, double);
    lemma_separator(tail, tail.len() as int, separator);
}

/// A step is worded as running until it is complete, and then as done or as
/// failed.
pub proof fn a_step_is_worded_by_its_stage(
    step: ActivityView,
    running: Seq<char>,
    done: Seq<char>,
    failed: Seq<char>,
)
    ensures
        ({
            let key = activity::stage_key(step, running, done, failed);
            &&& !step.complete ==> key == running
            &&& step.complete && !step.failed ==> key == done
            &&& step.complete && step.failed ==> key == failed
        }),
{
}

/// One changed file is called by its name, several by their number.
pub proof fn changes_are_named_or_counted(
    entries: Seq<(Seq<char>, Seq<char>)>,
    changes: Seq<FileChangeView>,
)
    ensures
        ({
            let name = activity::changes_name(entries, changes);
            &&& changes.len() == 0 ==> name is None
            &&& changes.len() == 1 ==> name == Some(changes[0].display_name)
            &&& changes.len() > 1 ==> name == Some(
                i18n::counted(entries, "activity.file_count"@, changes.len()),
            )
        }),
{
}

/// A thought lasts as many seconds as it has begun, and at least one.
pub proof fn a_thought_lasts_its_begun_seconds(thought: ReasoningView, seconds: nat)
    requires
        seconds >= 1,
    ensures
        ({
            let lasted = thought.finished_at_ms - thought.started_at_ms;
            &&& lasted <= 1000 ==> activity::thought_seconds(thought) == 1
            &&& 1000 * (seconds - 1) < lasted <= 1000 * seconds ==> activity::thought_seconds(
                thought,
            ) == seconds
        }),
{
    let lasted = thought.finished_at_ms - thought.started_at_ms;
    if 1000 * (seconds - 1) < lasted <= 1000 * seconds {
        assert((lasted + 999) / 1000 == seconds);
    }
}

// ── Counts ─────────────────────────────────────────────────────────────────

/// How many of the first steps are of a kind.
pub open spec fn of_kind(steps: Seq<ActivityView>, n: int, kind: ActivityKind) -> nat {
    steps.take(n).filter(|step: ActivityView| step.kind == kind).len()
}

proof fn lemma_of_kind(steps: Seq<ActivityView>, n: int, kind: ActivityKind)
    requires
        0 < n <= steps.len(),
    ensures
        of_kind(steps, n, kind) == of_kind(steps, n - 1, kind) + if steps[n - 1].kind == kind {
            1nat
        } else {
            0
        },
{
    reveal(Seq::filter);
    assert(steps.take(n).drop_last() =~= steps.take(n - 1));
}

proof fn lemma_count_of(counts: Seq<KindCount>, kind: ActivityKind)
    ensures
        ({
            let at = activity::count_of(counts, kind);
            &&& -1 <= at < counts.len()
            &&& at >= 0 ==> counts[at].kind == kind
            &&& forall|k: int|
                0 <= k < counts.len() && (at < 0 || k < at) ==> (#[trigger] counts[k]).kind != kind
        }),
    decreases counts.len(),
{
    if counts.len() > 0 {
        let rest = counts.skip(1);
        lemma_count_of(rest, kind);
        assert forall|k: int| 0 < k < counts.len() implies #[trigger] counts[k] == rest[k
            - 1] by {}
    }
}

/// Steps are counted by their kind: each kind that occurs once, with how often
/// it does.
pub proof fn steps_are_counted_by_kind(steps: Seq<ActivityView>, n: int, kind: ActivityKind)
    requires
        0 <= n <= steps.len() <= usize::MAX,
    ensures
        ({
            let counts = activity::kind_counts(steps, n);
            &&& of_kind(steps, n, kind) <= n
            &&& of_kind(steps, n, kind) == 0 <==> forall|k: int|
                0 <= k < counts.len() ==> (#[trigger] counts[k]).kind != kind
            &&& forall|k: int|
                0 <= k < counts.len() && (#[trigger] counts[k]).kind == kind ==> counts[k].count
                    == of_kind(steps, n, kind)
            &&& forall|j: int, k: int|
                0 <= j < k < counts.len() ==> (#[trigger] counts[j]).kind != (
                #[trigger] counts[k]).kind
        }),
    decreases n,
{
    reveal(Seq::filter);
    if n > 0 {
        let last = steps[n - 1].kind;
        steps_are_counted_by_kind(steps, n - 1, kind);
        steps_are_counted_by_kind(steps, n - 1, last);
        lemma_of_kind(steps, n, kind);
        let before = activity::kind_counts(steps, n - 1);
        let counts = activity::kind_counts(steps, n);
        lemma_count_of(before, last);
        let at = activity::count_of(before, last);
        assert forall|k: int| 0 <= k < before.len() implies (#[trigger] counts[k]).kind
            == before[k].kind by {}
        if at >= 0 {
            assert(counts[at].kind == last);
            assert(before[at].count == of_kind(steps, n - 1, last));
        } else {
            assert(counts[before.len() as int].kind == last);
        }
        assert forall|k: int| 0 <= k < counts.len() && (#[trigger] counts[k]).kind
            == kind implies counts[k].count == of_kind(steps, n, kind) by {
            if k < before.len() {
                assert(before[k].kind == kind);
            }
        }
        if of_kind(steps, n, kind) > 0 {
            if of_kind(steps, n - 1, kind) > 0 {
                let k = choose|k: int|
                    0 <= k < before.len() && (#[trigger] before[k]).kind == kind;
                assert(counts[k].kind == kind);
            }
        } else {
            assert forall|k: int| 0 <= k < counts.len() implies (#[trigger] counts[k]).kind
                != kind by {
                if k < before.len() {
                    assert(before[k].kind != kind);
                }
            }
        }
    }
}

/// Numbers add up where each of them is known, and to nothing otherwise.
pub proof fn known_numbers_add_up(numbers: Seq<Option<u64>>, number: Option<u64>)
    ensures
        ({
            let n = numbers.len() as int;
            let before = activity::total(numbers, n);
            let after = activity::total(numbers.push(number), n + 1);
            &&& activity::total(Seq::empty(), 0) == Some(0nat)
            &&& after is Some <==> before is Some && number is Some
            &&& after is Some ==> after->0 == before->0 + number->0
        }),
{
    lemma_total_front(numbers, number, numbers.len() as int);
}

proof fn lemma_total_front(numbers: Seq<Option<u64>>, number: Option<u64>, n: int)
    requires
        0 <= n <= numbers.len(),
    ensures
        activity::total(numbers.push(number), n) == activity::total(numbers, n),
    decreases n,
{
    if n > 0 {
        lemma_total_front(numbers, number, n - 1);
    }
}

// ── Sections ───────────────────────────────────────────────────────────────

/// Whether a text says something.
pub open spec fn says(given: Option<Seq<char>>) -> bool {
    given is Some && text::trimmed(given->0).len() > 0
}

/// A command discloses what was run, by its arguments or else by its target,
/// and what came of it; images without words still have a place.
pub proof fn a_command_discloses_its_output(step: ActivityView, section: SectionView)
    requires
        step.kind == ActivityKind::Command,
    ensures
        ({
            let run = if step.arguments is Some {
                step.arguments
            } else {
                step.display_target
            };
            activity::disclosed(step).contains(section) <==> {
                ||| section.kind == ActivityDisclosureSectionKind::Command && says(run)
                    && section.content == text::trimmed(run->0)
                ||| section.kind == ActivityDisclosureSectionKind::Output && says(step.output)
                    && section.content == text::trimmed(step.output->0)
                ||| section.kind == ActivityDisclosureSectionKind::Output && !says(step.output)
                    && step.image_urls.len() > 0 && section.content.len() == 0
            }
        }),
{
    broadcast use {
        vstd::seq_lib::lemma_seq_concat_contains_all_elements,
        vstd::seq_lib::lemma_seq_empty_contains_nothing,
    };

    lemma_section(
        ActivityDisclosureSectionKind::Command,
        activity::said(
            if step.arguments is Some {
                step.arguments
            } else {
                step.display_target
            },
        ),
        section,
    );
    lemma_section(ActivityDisclosureSectionKind::Output, activity::said(step.output), section);
    lemma_section(ActivityDisclosureSectionKind::Output, Some(Seq::empty()), section);
    if section.content.len() == 0 {
        assert(section.content =~= Seq::empty());
    }
}

proof fn lemma_section(
    kind: ActivityDisclosureSectionKind,
    content: Option<Seq<char>>,
    section: SectionView,
)
    ensures
        activity::section(kind, content).contains(section) <==> content is Some && section.kind
            == kind && section.content == content->0,
{
    let sections = activity::section(kind, content);
    if content is Some {
        assert(sections[0] == SectionView { kind, content: content->0 });
        if section.kind == kind && section.content == content->0 {
            assert(section =~= sections[0]);
        }
    }
}

/// Another step discloses its arguments and its output, and its detail where it
/// has neither. The diff of an edit stands in place of both, but for the
/// output of one that failed.
pub proof fn a_step_discloses_what_it_did(step: ActivityView, section: SectionView)
    requires
        step.kind != ActivityKind::Command,
    ensures
        ({
            let diff = step.kind == ActivityKind::FileChange && exists|i: int|
                0 <= i < step.file_changes.len() && (#[trigger] step.file_changes[i]).diff is Some;
            let arguments = !diff && says(step.arguments);
            let output = says(step.output) && (!diff || step.failed);
            let images = step.image_urls.len() > 0;
            activity::disclosed(step).contains(section) <==> {
                ||| section.kind == ActivityDisclosureSectionKind::Arguments && arguments
                    && section.content == text::trimmed(step.arguments->0)
                ||| section.kind == ActivityDisclosureSectionKind::Output && output
                    && section.content == text::trimmed(step.output->0)
                ||| section.kind == ActivityDisclosureSectionKind::Output && !output && images
                    && section.content.len() == 0
                ||| section.kind == ActivityDisclosureSectionKind::Detail && !arguments && !output
                    && !images && says(step.detail) && section.content == text::trimmed(
                    step.detail->0,
                )
            }
        }),
{
    broadcast use {
        vstd::seq_lib::lemma_seq_concat_contains_all_elements,
        vstd::seq_lib::lemma_seq_empty_contains_nothing,
    };

    lemma_section(
        ActivityDisclosureSectionKind::Arguments,
        activity::said(step.arguments),
        section,
    );
    lemma_section(ActivityDisclosureSectionKind::Output, activity::said(step.output), section);
    lemma_section(ActivityDisclosureSectionKind::Output, None, section);
    lemma_section(ActivityDisclosureSectionKind::Output, Some(Seq::empty()), section);
    lemma_section(ActivityDisclosureSectionKind::Detail, activity::said(step.detail), section);
    if section.content.len() == 0 {
        assert(section.content =~= Seq::empty());
    }
}

/// The first line with words in it.
pub proof fn the_first_line_has_words(lines: Seq<Seq<char>>, at: int)
    requires
        0 <= at <= lines.len(),
        at < lines.len() ==> !text::blank(lines[at]),
        forall|k: int| 0 <= k < at ==> text::blank(#[trigger] lines[k]),
    ensures
        activity::first_line(lines) == if at < lines.len() {
            Some(lines[at])
        } else {
            None
        },
    decreases lines.len(),
{
    if lines.len() > 0 && at > 0 {
        assert(text::blank(lines[0]));
        let rest = lines.skip(1);
        assert forall|k: int| 0 <= k < at - 1 implies text::blank(#[trigger] rest[k]) by {
            assert(text::blank(lines[k + 1]));
        }
        the_first_line_has_words(rest, at - 1);
    }
}

// ── Messages ───────────────────────────────────────────────────────────────

/// What stands below a message: the time and a button to copy it, always; the
/// fork of a task below an answer that can be forked; undo and rewind below a
/// prompt that can be taken back.
pub proof fn a_footer_offers_what_can_be_done(
    entries: Seq<(Seq<char>, Seq<char>)>,
    message_id: Id,
    time_label: Seq<char>,
    copied: bool,
    align_right: bool,
    assistant_action: Option<AssistantMessageAction>,
    user_action: Option<UserMessageAction>,
    control: FooterControlView,
)
    ensures
        ({
            let offered = messages::footer_controls(
                entries,
                message_id,
                time_label,
                copied,
                align_right,
                assistant_action,
                user_action,
            ).contains(control);
            let id = sidebar::id_text(message_id);
            match control {
                FooterControlView::Time { label } => offered <==> label == time_label,
                FooterControlView::Copy { id: copy_id, icon, tooltip } => offered <==> {
                    &&& copy_id == "copy-message-"@ + id
                    &&& icon == if copied {
                        "icons/check.svg"@
                    } else {
                        "icons/copy.svg"@
                    }
                    &&& tooltip == i18n::plain(
                        entries,
                        if copied {
                            "common.copied"@
                        } else {
                            "common.copy_message"@
                        },
                    )
                },
                FooterControlView::Fork { id: fork_id, spinning, enabled, dimmed, tooltip } => {
                    offered ==> {
                        &&& !align_right && assistant_action is Some
                        &&& spinning == assistant_action->0.preparing
                        &&& enabled == assistant_action->0.enabled
                        &&& dimmed == (!enabled && !spinning)
                    }
                },
                FooterControlView::Undo { .. } => offered ==> user_action is Some,
                FooterControlView::Rewind { .. } => offered ==> user_action is Some,
            }
        }),
{
    let controls = messages::footer_controls(
        entries,
        message_id,
        time_label,
        copied,
        align_right,
        assistant_action,
        user_action,
    );
    if align_right {
        assert(controls[0] == FooterControlView::Time { label: time_label });
        assert(controls[1] == messages::copy_control(entries, message_id, copied));
    } else {
        assert(controls[0] == messages::copy_control(entries, message_id, copied));
        let at = if assistant_action is Some {
            2int
        } else {
            1int
        };
        assert(controls[at] == FooterControlView::Time { label: time_label });
    }
}

/// A prompt that can be taken back offers both ways to, and an answer that can
/// be forked offers the fork.
pub proof fn an_offered_action_is_shown(
    entries: Seq<(Seq<char>, Seq<char>)>,
    message_id: Id,
    time_label: Seq<char>,
    copied: bool,
    align_right: bool,
    assistant_action: Option<AssistantMessageAction>,
    user_action: Option<UserMessageAction>,
)
    ensures
        ({
            let controls = messages::footer_controls(
                entries,
                message_id,
                time_label,
                copied,
                align_right,
                assistant_action,
                user_action,
            );
            &&& user_action is Some ==> controls.len() >= 2 && controls[controls.len()
                - 2] is Undo && controls[controls.len() - 1] is Rewind
            &&& !align_right && assistant_action is Some ==> controls[1] is Fork
        }),
{
}

/// What a message shows: a prompt, with what was attached to it, or its editor
/// while it is edited, which sends nothing empty; an answer, with its own
/// footer where it belongs to no turn; a note otherwise.
pub proof fn a_message_shows_its_role(message: MessageView, context: MessageContext)
    ensures
        ({
            let body = messages::body_shown(message, context);
            let attached = message.attachments.len() > 0;
            let shown = if message.display_content is Some {
                message.display_content->0
            } else {
                message.content
            };
            let edited = context.edit_input is Some;
            &&& message.role == MessageRole::User && edited ==> body == (
            MessageBodyView::Editing {
                shows_attachments: attached,
                can_submit: !text::blank(context.edit_input->0@) || attached,
            })
            &&& message.role == MessageRole::User && !edited ==> {
                &&& body is Prompt
                &&& body->Prompt_shows_attachments == attached
                &&& body->shows_text == !text::blank(shown)
                &&& body->Prompt_footer is Some
                &&& body->Prompt_footer->0.time == message.created_at
                &&& body->Prompt_footer->0.copy_content == shown
                &&& body->Prompt_footer->0.user_action == context.user_action
                &&& body->Prompt_footer->0.assistant_action is None
                &&& body->Prompt_footer->0.align_right
            }
            &&& message.role == MessageRole::Assistant ==> {
                &&& body is Answer
                &&& body->Answer_footer is Some <==> context.footer_copy_content is Some
                    && message.turn_id is None
                &&& body->Answer_footer is Some ==> {
                    &&& body->Answer_footer->0.copy_content == context.footer_copy_content->0@
                    &&& body->Answer_footer->0.assistant_action == context.assistant_action
                    &&& body->Answer_footer->0.user_action is None
                    &&& !body->Answer_footer->0.align_right
                    &&& body->Answer_footer->0.time == if context.footer_time is Some {
                        context.footer_time->0
                    } else {
                        message.created_at
                    }
                }
            }
            &&& message.role == MessageRole::System ==> body is Note
            &&& messages::row_shown(message, context).content == shown
            &&& messages::row_shown(message, context).menu_copy_content
                == if context.footer_copy_content is Some {
                context.footer_copy_content->0@
            } else {
                shown
            }
        }),
{
}

/// What a message's menu offers: a copy of what is selected and of its code
/// where there is any, always of the whole; a prompt that cannot be taken back
/// can be put into the composer, one that can be taken back can be reverted
/// to, and an answer can be forked where that is offered.
pub proof fn a_menu_offers_what_can_be_done(
    entries: Seq<(Seq<char>, Seq<char>)>,
    content: Seq<char>,
    role: MessageRole,
    user_action: Option<UserMessageAction>,
    assistant_action: Option<AssistantMessageAction>,
    selected_text: Option<Seq<char>>,
    item: MessageMenuView,
)
    ensures
        ({
            let offered = messages::menu_shown(
                entries,
                content,
                role,
                user_action,
                assistant_action,
                selected_text,
            ).contains(item);
            match item {
                MessageMenuView::CopySelection { label, text } => offered <==> selected_text
                    == Some(text) && label == i18n::plain(entries, "common.copy_selection"@),
                MessageMenuView::CopyMessage { label } => offered <==> label == i18n::plain(
                    entries,
                    "common.copy_message_title"@,
                ),
                MessageMenuView::CopyToComposer { label } => offered <==> role
                    == MessageRole::User && user_action is None && label == i18n::plain(
                    entries,
                    "common.copy_to_composer"@,
                ),
                MessageMenuView::CopyCode { label, code } => offered <==> messages::code_in(
                    content,
                ) == Some(code) && label == i18n::plain(entries, "common.copy_code"@),
                MessageMenuView::Separator => offered <==> user_action is Some
                    || assistant_action is Some,
                MessageMenuView::Revert { label } => offered <==> user_action is Some && label
                    == i18n::plain(entries, "session.revert_to_here_title"@),
                MessageMenuView::Fork { label, enabled } => offered <==> assistant_action is Some
                    && enabled == assistant_action->0.enabled && label == i18n::plain(
                    entries,
                    if enabled {
                        "session.fork_task_title"@
                    } else {
                        "session.forking_task_title"@
                    },
                ),
            }
        }),
{
    broadcast use {
        vstd::seq_lib::lemma_seq_concat_contains_all_elements,
        vstd::seq_lib::lemma_seq_empty_contains_nothing,
    };

    lemma_pair(
        MessageMenuView::Separator,
        MessageMenuView::Revert {
            label: i18n::plain(entries, "session.revert_to_here_title"@),
        },
        item,
    );
    if assistant_action is Some {
        lemma_pair(
            MessageMenuView::Separator,
            MessageMenuView::Fork {
                label: i18n::plain(
                    entries,
                    if assistant_action->0.enabled {
                        "session.fork_task_title"@
                    } else {
                        "session.forking_task_title"@
                    },
                ),
                enabled: assistant_action->0.enabled,
            },
            item,
        );
    }
    if selected_text is Some {
        lemma_single(
            MessageMenuView::CopySelection {
                label: i18n::plain(entries, "common.copy_selection"@),
                text: selected_text->0,
            },
            item,
        );
    }
    lemma_single(
        MessageMenuView::CopyMessage { label: i18n::plain(entries, "common.copy_message_title"@) },
        item,
    );
    lemma_single(
        MessageMenuView::CopyToComposer {
            label: i18n::plain(entries, "common.copy_to_composer"@),
        },
        item,
    );
    if messages::code_in(content) is Some {
        lemma_single(
            MessageMenuView::CopyCode {
                label: i18n::plain(entries, "common.copy_code"@),
                code: messages::code_in(content)->0,
            },
            item,
        );
    }
}

proof fn lemma_pair(first: MessageMenuView, second: MessageMenuView, item: MessageMenuView)
    ensures
        seq![first, second].contains(item) <==> item == first || item == second,
{
    let both = seq![first, second];
    assert(both[0] == first && both[1] == second);
}

proof fn lemma_single(only: MessageMenuView, item: MessageMenuView)
    ensures
        seq![only].contains(item) <==> item == only,
{
    assert(seq![only][0] == only);
}

/// An attachment is shown as what it is: an image once it is loaded, a folder,
/// or a file.
pub proof fn an_attachment_is_shown_as_what_it_is(
    message_id: Id,
    attachment: AttachmentView,
    index: int,
    loaded: bool,
)
    ensures
        ({
            let tile = messages::tile_shown(message_id, attachment, index, loaded);
            &&& tile.name == attachment.name && tile.path == attachment.path
            &&& tile.content == TileContent::Image <==> attachment.is_image && loaded
            &&& tile.content == TileContent::ImagePending <==> attachment.is_image && !loaded
            &&& tile.content == TileContent::Folder <==> !attachment.is_image && attachment.is_dir
            &&& tile.content == TileContent::File <==> !attachment.is_image && !attachment.is_dir
        }),
{
}

} // verus!
