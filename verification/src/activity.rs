//! How a step of the agent's work reads: its title, its detail, the sections
//! it discloses, and the summary of several steps.
use crate::duration;
use crate::i18n;
use crate::i18n::Catalog;
use crate::model::{
    ActivityItem, ActivityKind, ActivityView, FileChange, FileChangeView, Id, ReasoningBlock,
    ReasoningView,
};
use crate::paths;
use crate::text;
use vstd::prelude::*;

verus! {

// ── Code in a message ──────────────────────────────────────────────────────

/// Whether a code fence stands at `i`.
pub open spec fn is_fence(text: Seq<char>, i: int) -> bool {
    0 <= i && i + 3 <= text.len() && text[i] == '`' && text[i + 1] == '`' && text[i + 2] == '`'
}

/// The first code fence at or after `from`, or the length.
pub open spec fn next_fence(text: Seq<char>, from: int) -> int
    decreases text.len() - from,
{
    if from < 0 || from >= text.len() {
        text.len() as int
    } else if is_fence(text, from) {
        from
    } else {
        next_fence(text, from + 1)
    }
}

/// What stands between the code fences, from `from` on.
pub open spec fn fence_segments(text: Seq<char>, from: int) -> Seq<Seq<char>>
    decreases text.len() - from,
    when 0 <= from <= text.len()
    via fence_segments_terminate
{
    let fence = next_fence(text, from);
    if fence < text.len() {
        seq![text.subrange(from, fence)] + fence_segments(text, fence + 3)
    } else {
        seq![text.subrange(from, text.len() as int)]
    }
}

#[via_fn]
proof fn fence_segments_terminate(text: Seq<char>, from: int) {
    lemma_next_fence(text, from);
}

proof fn lemma_next_fence(text: Seq<char>, from: int)
    requires
        0 <= from <= text.len(),
    ensures
        from <= next_fence(text, from) <= text.len(),
        next_fence(text, from) < text.len() ==> next_fence(text, from) + 3 <= text.len(),
    decreases text.len() - from,
{
    if from < text.len() && !is_fence(text, from) {
        lemma_next_fence(text, from + 1);
    }
}

/// The code of a fenced segment: what follows its first line, which may name
/// a language, or all of it where it has only one line.
pub open spec fn fenced_body(segment: Seq<char>) -> Seq<char> {
    let line_end = crate::streaming::line_end(segment, 0);
    if line_end < segment.len() {
        segment.skip(line_end + 1)
    } else {
        segment
    }
}

/// The code in every other segment, without blank blocks.
pub open spec fn code_blocks(segments: Seq<Seq<char>>) -> Seq<Seq<char>>
    decreases segments.len(),
{
    if segments.len() < 2 {
        Seq::empty()
    } else {
        let code = fenced_body(segments[1]);
        (if text::blank(code) {
            Seq::empty()
        } else {
            seq![text::trim_end(code)]
        }) + code_blocks(segments.skip(2))
    }
}

fn split_fences(content: &str) -> (segments: Vec<String>)
    ensures
        text::texts_view(segments@) == fence_segments(content@, 0),
{
    let chars = text::chars_of(content);
    let mut segments: Vec<String> = Vec::new();
    let mut from: usize = 0;
    let mut more: bool = true;
    assert(text::texts_view(segments@) + fence_segments(content@, 0) =~= fence_segments(
        content@,
        0,
    ));
    while more
        invariant
            from <= chars@.len(),
            chars@ == content@,
            more ==> text::texts_view(segments@) + fence_segments(content@, from as int)
                == fence_segments(content@, 0),
            !more ==> text::texts_view(segments@) == fence_segments(content@, 0),
        decreases
            chars@.len() - from + (if more {
                1int
            } else {
                0
            }),
    {
        let mut at: usize = from;
        let mut found: bool = false;
        while at < chars.len() && !found
            invariant
                from <= at <= chars@.len(),
                next_fence(chars@, from as int) == next_fence(chars@, at as int),
                found ==> at < chars@.len() && is_fence(chars@, at as int),
            decreases
                chars@.len() - at + (if found {
                    0int
                } else {
                    1
                }),
        {
            if chars.len() - at >= 3 && chars[at] == '`' && chars[at + 1] == '`' && chars[at + 2]
                == '`' {
                found = true;
            } else {
                at += 1;
            }
        }
        let ghost before = text::texts_view(segments@);
        let segment = text::text_of(&chars, from, at);
        segments.push(segment);
        assert(text::texts_view(segments@) =~= before.push(segment@));
        if found {
            proof {
                let rest = fence_segments(content@, at + 3);
                assert(before + (seq![segment@] + rest) =~= before.push(segment@) + rest);
            }
            from = at + 3;
        } else {
            assert(before + seq![segment@] =~= before.push(segment@));
            more = false;
        }
    }
    segments
}

fn body_of(segment: &String) -> (code: String)
    ensures
        code@ == fenced_body(segment@),
{
    let chars = text::chars_of(segment.as_str());
    let mut end: usize = 0;
    while end < chars.len() && chars[end] != '\n'
        invariant
            end <= chars@.len(),
            crate::streaming::line_end(chars@, 0) == crate::streaming::line_end(
                chars@,
                end as int,
            ),
        decreases chars@.len() - end,
    {
        end += 1;
    }
    if end < chars.len() {
        assert(chars@.subrange(end + 1, chars@.len() as int) =~= chars@.skip(end + 1));
        text::text_of(&chars, end + 1, chars.len())
    } else {
        segment.clone()
    }
}

/// All the code in a message, without the names of languages; `None` where
/// there is none.
pub fn fenced_code(content: &str) -> (code: Option<String>)
    ensures
        match code {
            Some(code) => code_blocks(fence_segments(content@, 0)).len() > 0 && code@
                == text::joined(code_blocks(fence_segments(content@, 0)), "\n\n"@),
            None => code_blocks(fence_segments(content@, 0)).len() == 0,
        },
{
    let segments = split_fences(content);
    let ghost all = text::texts_view(segments@);
    let mut blocks: Vec<String> = Vec::new();
    let mut i: usize = 0;
    assert(all.skip(0) =~= all);
    assert(text::texts_view(blocks@) + code_blocks(all) =~= code_blocks(all));
    while segments.len() - i >= 2
        invariant
            i <= segments@.len(),
            all == text::texts_view(segments@),
            text::texts_view(blocks@) + code_blocks(all.skip(i as int)) == code_blocks(all),
        decreases segments@.len() - i,
    {
        let ghost rest = all.skip(i as int);
        assert(rest[1] == segments@[i + 1]@);
        assert(rest.skip(2) =~= all.skip(i + 2));
        let ghost before = text::texts_view(blocks@);
        let ghost later = code_blocks(all.skip(i + 2));
        let code = body_of(&segments[i + 1]);
        if !text::is_blank(code.as_str()) {
            let trimmed = text::trim_trailing(code.as_str());
            blocks.push(trimmed);
            assert(text::texts_view(blocks@) =~= before.push(trimmed@));
            assert(before + (seq![trimmed@] + later) =~= before.push(trimmed@) + later);
        } else {
            assert(Seq::<Seq<char>>::empty() + later =~= later);
        }
        i += 2;
    }
    assert(text::texts_view(blocks@) + Seq::<Seq<char>>::empty() =~= text::texts_view(blocks@));
    if blocks.is_empty() {
        None
    } else {
        Some(text::join(&blocks, "\n\n"))
    }
}

// ── Tool names ─────────────────────────────────────────────────────────────

/// The last double underscore that begins before `n`, or -1.
pub open spec fn last_double_underscore(text: Seq<char>, n: int) -> int
    decreases n,
{
    if n <= 0 {
        -1
    } else if n < text.len() && text[n - 1] == '_' && text[n] == '_' {
        n - 1
    } else {
        last_double_underscore(text, n - 1)
    }
}

/// Whether a character separates the parts of a tool's name.
pub open spec fn is_separator(c: char) -> bool {
    c == ':' || c == '.' || c == '/'
}

/// The last separator among the first `n` characters, or -1.
pub open spec fn last_separator(text: Seq<char>, n: int) -> int
    decreases n,
{
    if n <= 0 {
        -1
    } else if is_separator(text[n - 1]) {
        n - 1
    } else {
        last_separator(text, n - 1)
    }
}

/// The last part of a tool's name: what follows its last double underscore
/// and, in that, its last separator.
pub open spec fn name_leaf(name: Seq<char>) -> Seq<char> {
    let whole = text::trimmed(name);
    let double = last_double_underscore(whole, whole.len() as int);
    let tail = if double >= 0 {
        whole.skip(double + 2)
    } else {
        whole
    };
    tail.skip(last_separator(tail, tail.len() as int) + 1)
}

proof fn lemma_double_bounds(text: Seq<char>, n: int)
    requires
        n <= text.len(),
    ensures
        -1 <= last_double_underscore(text, n),
        last_double_underscore(text, n) >= 0 ==> last_double_underscore(text, n) + 2 <= text.len(),
    decreases n,
{
    if n > 0 && !(n < text.len() && text[n - 1] == '_' && text[n] == '_') {
        lemma_double_bounds(text, n - 1);
    }
}

/// The last part of a tool's name.
pub fn tool_name_leaf(name: &str) -> (leaf: String)
    ensures
        leaf@ == name_leaf(name@),
{
    let whole = text::trim(name);
    let chars = text::chars_of(whole.as_str());
    let count: usize = chars.len();
    let mut n: usize = count;
    let mut start: usize = 0;
    let mut searching: bool = true;
    while n > 0 && searching
        invariant
            n <= count,
            count == chars@.len(),
            searching ==> start == 0 && last_double_underscore(chars@, count as int)
                == last_double_underscore(chars@, n as int),
            !searching ==> n > 0 && start == n + 1 && start <= count && last_double_underscore(
                chars@,
                count as int,
            ) == n - 1,
        decreases
            n + (if searching {
                1int
            } else {
                0
            }),
    {
        if n < count && chars[n - 1] == '_' && chars[n] == '_' {
            start = n + 1;
            searching = false;
        } else {
            n -= 1;
        }
    }
    let ghost tail = chars@.skip(start as int);
    assert(start == 0 ==> tail =~= chars@);
    let mut m: usize = count;
    while m > start && !(chars[m - 1] == ':' || chars[m - 1] == '.' || chars[m - 1] == '/')
        invariant
            start <= m <= count,
            count == chars@.len(),
            tail == chars@.skip(start as int),
            last_separator(tail, tail.len() as int) == last_separator(tail, m - start),
        decreases m,
    {
        assert(tail[m - 1 - start] == chars@[m - 1]);
        m -= 1;
    }
    proof {
        if m > start {
            assert(tail[m - 1 - start] == chars@[m - 1]);
        }
        assert(tail.skip(m - start) =~= chars@.subrange(m as int, count as int));
    }
    text::text_of(&chars, m, count)
}

/// The first `n` characters in lower case, without the characters that join
/// words.
pub open spec fn squashed(text: Seq<char>, n: int) -> Seq<char>
    decreases n,
{
    if n <= 0 {
        Seq::empty()
    } else if text[n - 1] == '_' || text[n - 1] == '-' || text[n - 1] == ' ' {
        squashed(text, n - 1)
    } else {
        squashed(text, n - 1) + text::lowercase(text[n - 1])
    }
}

/// Whether a step is the agent's question to the user, however the tool
/// spells its name.
pub open spec fn asks_user(activity: ActivityView) -> bool {
    let leaf = name_leaf(activity.title);
    activity.kind == ActivityKind::Tool && squashed(leaf, leaf.len() as int) == "askuserquestion"@
}

/// Whether a step is the agent's question to the user.
pub fn is_ask_user_question(activity: &ActivityItem) -> (result: bool)
    ensures
        result == asks_user(activity@),
{
    if activity.kind != ActivityKind::Tool {
        return false;
    }
    let leaf = tool_name_leaf(activity.title.as_str());
    let chars = text::chars_of(leaf.as_str());
    let mut squashed_text = String::new();
    let mut i: usize = 0;
    while i < chars.len()
        invariant
            i <= chars@.len(),
            squashed_text@ == squashed(chars@, i as int),
        decreases chars@.len() - i,
    {
        if !(chars[i] == '_' || chars[i] == '-' || chars[i] == ' ') {
            squashed_text.append(text::lower_text(chars[i]).as_str());
        }
        i += 1;
    }
    text::same(squashed_text.as_str(), "askuserquestion")
}

/// Whether a character is an ASCII capital.
pub open spec fn is_upper(c: char) -> bool {
    'A' <= c <= 'Z'
}

/// Whether a character is a small ASCII letter.
pub open spec fn is_lower(c: char) -> bool {
    'a' <= c <= 'z'
}

/// Whether a character is an ASCII digit.
pub open spec fn is_digit(c: char) -> bool {
    '0' <= c <= '9'
}

/// Whether a word begins at `i`: at a capital after a small letter or digit,
/// and at the last capital of a run that a small letter follows.
pub open spec fn starts_word(chars: Seq<char>, i: int) -> bool {
    is_upper(chars[i]) && i > 0 && (is_lower(chars[i - 1]) || is_digit(chars[i - 1]) || (is_upper(
        chars[i - 1],
    ) && i + 1 < chars.len() && is_lower(chars[i + 1])))
}

/// A text with a space at its end, but never two.
pub open spec fn spaced(text: Seq<char>) -> Seq<char> {
    if text.len() > 0 && text.last() == ' ' {
        text
    } else {
        text.push(' ')
    }
}

/// The first `n` characters of a name as separate words.
pub open spec fn spelled_out(chars: Seq<char>, n: int) -> Seq<char>
    decreases n,
{
    if n <= 0 {
        Seq::empty()
    } else {
        let before = spelled_out(chars, n - 1);
        let c = chars[n - 1];
        if c == '_' || c == '-' {
            spaced(before)
        } else if starts_word(chars, n - 1) {
            spaced(before).push(c)
        } else {
            before.push(c)
        }
    }
}

/// A tool's name as words, with a capital at the front. A name that already
/// holds spaces stays as it is.
pub open spec fn humanized(entries: Seq<(Seq<char>, Seq<char>)>, name: Seq<char>) -> Seq<char> {
    let whole = text::trimmed(name);
    if exists|i: int| 0 <= i < whole.len() && text::is_whitespace(#[trigger] whole[i]) {
        whole
    } else {
        let leaf = name_leaf(whole);
        let words = text::trimmed(spelled_out(leaf, leaf.len() as int));
        if words.len() == 0 {
            i18n::plain(entries, "activity.tool"@)
        } else {
            text::uppercase(words[0]) + words.skip(1)
        }
    }
}

fn push_space(text: &mut String, ends_with_space: bool)
    requires
        ends_with_space == (old(text)@.len() > 0 && old(text)@.last() == ' '),
    ensures
        final(text)@ == spaced(old(text)@),
{
    if !ends_with_space {
        text.push(' ');
    }
}

/// A tool's name as words.
pub fn humanize_tool_name(catalog: &Catalog, name: &str) -> (words: String)
    ensures
        words@ == humanized(catalog@, name@),
{
    let whole = text::trim(name);
    if text::has_whitespace(whole.as_str()) {
        return whole;
    }
    let leaf = tool_name_leaf(whole.as_str());
    let chars = text::chars_of(leaf.as_str());
    let count: usize = chars.len();
    let mut display = String::new();
    let mut ends_with_space: bool = false;
    let mut i: usize = 0;
    while i < count
        invariant
            i <= count,
            count == chars@.len(),
            display@ == spelled_out(chars@, i as int),
            ends_with_space == (display@.len() > 0 && display@.last() == ' '),
        decreases count - i,
    {
        let c: char = chars[i];
        if c == '_' || c == '-' {
            push_space(&mut display, ends_with_space);
            ends_with_space = true;
        } else {
            let starts: bool = 'A' <= c && c <= 'Z' && i > 0 && (('a' <= chars[i - 1] && chars[i - 1]
                <= 'z') || ('0' <= chars[i - 1] && chars[i - 1] <= '9') || ('A' <= chars[i - 1]
                && chars[i - 1] <= 'Z' && i < count - 1 && 'a' <= chars[i + 1] && chars[i + 1]
                <= 'z'));
            assert(starts == starts_word(chars@, i as int));
            if starts {
                push_space(&mut display, ends_with_space);
            }
            display.push(c);
            ends_with_space = c == ' ';
        }
        i += 1;
    }
    let words = text::trim(display.as_str());
    let letters = text::chars_of(words.as_str());
    if letters.len() == 0 {
        return catalog.text("activity.tool");
    }
    let mut result = text::upper_text(letters[0]);
    let rest = text::text_of(&letters, 1, letters.len());
    assert(rest@ =~= words@.skip(1));
    result.append(rest.as_str());
    result
}

// ── Titles ─────────────────────────────────────────────────────────────────

/// What a tool's step is called.
pub open spec fn tool_title(entries: Seq<(Seq<char>, Seq<char>)>, activity: ActivityView) -> Seq<
    char,
> {
    if asks_user(activity) {
        i18n::plain(entries, "activity.ask_questions"@)
    } else if activity.display_target matches Some(target) && text::trimmed(target).len() > 0 {
        text::trimmed(activity.display_target->0)
    } else if !activity.title_is_generic {
        humanized(entries, activity.title)
    } else {
        i18n::plain(entries, "activity.tool"@)
    }
}

/// What a tool's step is called: what it is about where the tool says so,
/// else the tool's name as words.
pub fn activity_tool_display_name(catalog: &Catalog, activity: &ActivityItem) -> (name: String)
    ensures
        name@ == tool_title(catalog@, activity@),
{
    if is_ask_user_question(activity) {
        return catalog.text("activity.ask_questions");
    }
    if let Some(target) = &activity.display_target {
        let shown = text::trim(target.as_str());
        if !shown.as_str().is_empty() {
            return shown;
        }
    }
    if !activity.title_is_generic {
        return humanize_tool_name(catalog, activity.title.as_str());
    }
    catalog.text("activity.tool")
}

/// The key for a step that runs, is done, or failed.
pub open spec fn stage_key(
    activity: ActivityView,
    running: Seq<char>,
    done: Seq<char>,
    failed: Seq<char>,
) -> Seq<char> {
    if !activity.complete {
        running
    } else if !activity.failed {
        done
    } else {
        failed
    }
}

fn stage<'a>(activity: &ActivityItem, running: &'a str, done: &'a str, failed: &'a str) -> (key:
    &'a str)
    ensures
        key@ == stage_key(activity@, running@, done@, failed@),
{
    if !activity.complete {
        running
    } else if !activity.failed {
        done
    } else {
        failed
    }
}

/// What the edited files are called: the one file's name, or how many there
/// are.
pub open spec fn changes_name(
    entries: Seq<(Seq<char>, Seq<char>)>,
    changes: Seq<FileChangeView>,
) -> Option<Seq<char>> {
    if changes.len() == 1 {
        Some(changes[0].display_name)
    } else if changes.len() > 1 {
        Some(i18n::counted(entries, "activity.file_count"@, changes.len()))
    } else {
        None
    }
}

fn name_changes(catalog: &Catalog, activity: &ActivityItem) -> (name: Option<String>)
    ensures
        text::text_view(name) == changes_name(catalog@, activity@.file_changes),
{
    let count: usize = activity.file_changes.len();
    if count == 1 {
        assert(activity@.file_changes[0] == activity.file_changes@[0]@);
        Some(activity.file_changes[0].display_name.clone())
    } else if count > 1 {
        Some(catalog.text_with_count("activity.file_count", count as u64))
    } else {
        None
    }
}

/// The text for the step's stage: with its subject where it has one, else its
/// own title unless that only repeats the kind.
pub open spec fn staged_title(
    entries: Seq<(Seq<char>, Seq<char>)>,
    activity: ActivityView,
    subject: Option<Seq<char>>,
    name: Seq<char>,
    named_key: Seq<char>,
    plain_key: Seq<char>,
) -> Seq<char> {
    match subject {
        Some(subject) => i18n::localized(entries, named_key, seq![i18n::argument(name, subject)]),
        None => if activity.title_is_generic {
            i18n::plain(entries, plain_key)
        } else {
            activity.title
        },
    }
}

fn staged(
    catalog: &Catalog,
    activity: &ActivityItem,
    subject: &Option<String>,
    name: &str,
    named_key: &str,
    plain_key: &str,
) -> (title: String)
    ensures
        title@ == staged_title(
            catalog@,
            activity@,
            text::text_view(*subject),
            name@,
            named_key@,
            plain_key@,
        ),
{
    match subject {
        Some(subject) => catalog.text_with(named_key, name, subject.as_str()),
        None => {
            if activity.title_is_generic {
                catalog.text(plain_key)
            } else {
                activity.title.clone()
            }
        },
    }
}

/// What a step is called. `target_name` is the last part of the path the step
/// is about.
pub open spec fn display_title(
    entries: Seq<(Seq<char>, Seq<char>)>,
    activity: ActivityView,
    target_name: Option<Seq<char>>,
) -> Seq<char> {
    match activity.kind {
        ActivityKind::FileChange => staged_title(
            entries,
            activity,
            changes_name(entries, activity.file_changes),
            "file"@,
            stage_key(
                activity,
                "activity.editing_named_file"@,
                "activity.edited_named_file"@,
                "activity.edit_failed_named_file"@,
            ),
            stage_key(
                activity,
                "activity.editing_files"@,
                "activity.edited_files"@,
                "activity.edit_failed"@,
            ),
        ),
        ActivityKind::FileRead => staged_title(
            entries,
            activity,
            target_name,
            "file"@,
            stage_key(
                activity,
                "activity.reading_named_file"@,
                "activity.read_named_file"@,
                "activity.read_named_file_failed"@,
            ),
            stage_key(
                activity,
                "activity.reading_file"@,
                "activity.read_file_completed"@,
                "activity.read_file_failed"@,
            ),
        ),
        ActivityKind::FileSearch => staged_title(
            entries,
            activity,
            activity.display_target,
            "query"@,
            stage_key(
                activity,
                "activity.searching_files_for"@,
                "activity.searched_files_for"@,
                "activity.file_search_failed_for"@,
            ),
            stage_key(
                activity,
                "activity.searching_files"@,
                "activity.searched_files"@,
                "activity.file_search_failed"@,
            ),
        ),
        ActivityKind::FileList => staged_title(
            entries,
            activity,
            target_name,
            "directory"@,
            stage_key(
                activity,
                "activity.listing_files_in"@,
                "activity.listed_files_in"@,
                "activity.file_list_failed_in"@,
            ),
            stage_key(
                activity,
                "activity.listing_files"@,
                "activity.listed_files"@,
                "activity.file_list_failed"@,
            ),
        ),
        ActivityKind::Command => match activity.display_description {
            Some(description) => i18n::localized(
                entries,
                stage_key(
                    activity,
                    "activity.running_described_command"@,
                    "activity.ran_described_command"@,
                    "activity.described_command_failed"@,
                ),
                seq![i18n::argument("description"@, description)],
            ),
            None => staged_title(
                entries,
                activity,
                activity.display_target,
                "command"@,
                stage_key(
                    activity,
                    "activity.running_named_command"@,
                    "activity.ran_named_command"@,
                    "activity.named_command_failed"@,
                ),
                stage_key(
                    activity,
                    "activity.running_command"@,
                    "activity.ran_command"@,
                    "activity.command_failed"@,
                ),
            ),
        },
        ActivityKind::Search => match activity.display_target {
            Some(query) => i18n::localized(
                entries,
                stage_key(
                    activity,
                    "activity.searching_web_for"@,
                    "activity.searched_web_for"@,
                    "activity.web_search_failed_for"@,
                ),
                seq![i18n::argument("query"@, query)],
            ),
            None => if activity.title_names_search {
                i18n::plain(
                    entries,
                    stage_key(
                        activity,
                        "activity.searching_web"@,
                        "activity.searched_the_web"@,
                        "activity.web_search_failed"@,
                    ),
                )
            } else {
                activity.title
            },
        },
        ActivityKind::Plan => if activity.title_is_generic {
            i18n::plain(
                entries,
                stage_key(
                    activity,
                    "activity.updating_plan"@,
                    "activity.updated_plan"@,
                    "activity.plan_update_failed"@,
                ),
            )
        } else {
            activity.title
        },
        ActivityKind::Tool => tool_title(entries, activity),
        ActivityKind::Reasoning => activity.title,
    }
}

/// What a step is called, given the last part of the path it is about.
pub fn display_title_for(catalog: &Catalog, activity: &ActivityItem, target_name: &Option<String>) -> (title:
    String)
    ensures
        title@ == display_title(catalog@, activity@, text::text_view(*target_name)),
{
    match activity.kind {
        ActivityKind::FileChange => {
            let subject = name_changes(catalog, activity);
            staged(
                catalog,
                activity,
                &subject,
                "file",
                stage(
                    activity,
                    "activity.editing_named_file",
                    "activity.edited_named_file",
                    "activity.edit_failed_named_file",
                ),
                stage(
                    activity,
                    "activity.editing_files",
                    "activity.edited_files",
                    "activity.edit_failed",
                ),
            )
        },
        ActivityKind::FileRead => staged(
            catalog,
            activity,
            target_name,
            "file",
            stage(
                activity,
                "activity.reading_named_file",
                "activity.read_named_file",
                "activity.read_named_file_failed",
            ),
            stage(
                activity,
                "activity.reading_file",
                "activity.read_file_completed",
                "activity.read_file_failed",
            ),
        ),
        ActivityKind::FileSearch => staged(
            catalog,
            activity,
            &activity.display_target,
            "query",
            stage(
                activity,
                "activity.searching_files_for",
                "activity.searched_files_for",
                "activity.file_search_failed_for",
            ),
            stage(
                activity,
                "activity.searching_files",
                "activity.searched_files",
                "activity.file_search_failed",
            ),
        ),
        ActivityKind::FileList => staged(
            catalog,
            activity,
            target_name,
            "directory",
            stage(
                activity,
                "activity.listing_files_in",
                "activity.listed_files_in",
                "activity.file_list_failed_in",
            ),
            stage(
                activity,
                "activity.listing_files",
                "activity.listed_files",
                "activity.file_list_failed",
            ),
        ),
        ActivityKind::Command => {
            if let Some(description) = &activity.display_description {
                return catalog.text_with(
                    stage(
                        activity,
                        "activity.running_described_command",
                        "activity.ran_described_command",
                        "activity.described_command_failed",
                    ),
                    "description",
                    description.as_str(),
                );
            }
            staged(
                catalog,
                activity,
                &activity.display_target,
                "command",
                stage(
                    activity,
                    "activity.running_named_command",
                    "activity.ran_named_command",
                    "activity.named_command_failed",
                ),
                stage(
                    activity,
                    "activity.running_command",
                    "activity.ran_command",
                    "activity.command_failed",
                ),
            )
        },
        ActivityKind::Search => {
            if let Some(query) = &activity.display_target {
                return catalog.text_with(
                    stage(
                        activity,
                        "activity.searching_web_for",
                        "activity.searched_web_for",
                        "activity.web_search_failed_for",
                    ),
                    "query",
                    query.as_str(),
                );
            }
            if activity.title_names_search {
                return catalog.text(
                    stage(
                        activity,
                        "activity.searching_web",
                        "activity.searched_the_web",
                        "activity.web_search_failed",
                    ),
                );
            }
            activity.title.clone()
        },
        ActivityKind::Plan => {
            if !activity.title_is_generic {
                return activity.title.clone();
            }
            catalog.text(
                stage(
                    activity,
                    "activity.updating_plan",
                    "activity.updated_plan",
                    "activity.plan_update_failed",
                ),
            )
        },
        ActivityKind::Tool => activity_tool_display_name(catalog, activity),
        ActivityKind::Reasoning => activity.title.clone(),
    }
}

/// The last part of a path where it is known and says something, else the
/// path itself.
pub fn path_name(path: &str, component: Option<String>) -> (name: String)
    ensures
        name@ == (match component {
            Some(component) => if component@.len() > 0 {
                component@
            } else {
                path@
            },
            None => path@,
        }),
{
    match component {
        Some(component) => {
            if component.as_str().is_empty() {
                text::owned(path)
            } else {
                component
            }
        },
        None => text::owned(path),
    }
}

/// Whether a text may stand for a path: the path's last part, or the path
/// where it has none.
pub open spec fn names_path(name: Seq<char>, path: Seq<char>) -> bool {
    &&& paths::ends_in_name(path) ==> name == paths::last_part(path)
    &&& paths::ends_in_no_name(path) ==> name == path
    &&& text::occurs_in(path, name)
}

/// The last part of a path, or the path where it has none. What the parts of a
/// path are depends on the platform where its last one is no plain name.
pub fn activity_path_name(path: &str) -> (name: String)
    ensures
        names_path(name@, path@),
{
    assert(text::occurs_at(path@, path@, 0)) by {
        assert(path@.subrange(0, 0int + path@.len()) =~= path@);
    }
    path_name(path, paths::last_component(path))
}

fn target_name(activity: &ActivityItem) -> (name: Option<String>)
    ensures
        names_target(activity@, text::text_view(name)),
{
    match &activity.display_target {
        Some(target) => Some(activity_path_name(target.as_str())),
        None => None,
    }
}

/// Whether `name` may stand for what the step is about: for its target,
/// exactly where it has one.
pub open spec fn names_target(activity: ActivityView, name: Option<Seq<char>>) -> bool {
    match (name, activity.display_target) {
        (Some(name), Some(target)) => names_path(name, target),
        (None, None) => true,
        _ => false,
    }
}

/// What a step is called.
pub fn activity_display_title(catalog: &Catalog, activity: &ActivityItem) -> (title: String)
    ensures
        exists|name: Option<Seq<char>>|
            names_target(activity@, name) && title@ == #[trigger] display_title(
                catalog@,
                activity@,
                name,
            ),
{
    let name = target_name(activity);
    let title = display_title_for(catalog, activity, &name);
    assert(names_target(activity@, text::text_view(name)));
    title
}

/// What is done in a step, in one word.
pub open spec fn action_label(entries: Seq<(Seq<char>, Seq<char>)>, activity: ActivityView) -> Seq<
    char,
> {
    i18n::plain(
        entries,
        match activity.kind {
            ActivityKind::Reasoning => "activity.action_think"@,
            ActivityKind::Command => "activity.action_run"@,
            ActivityKind::FileChange => "activity.action_edit"@,
            ActivityKind::FileRead => "activity.action_read"@,
            ActivityKind::FileSearch => "activity.action_search"@,
            ActivityKind::Search => "activity.action_search"@,
            ActivityKind::FileList => "activity.action_list"@,
            ActivityKind::Plan => "activity.action_plan"@,
            ActivityKind::Tool => if asks_user(activity) {
                "activity.ask_questions"@
            } else {
                "activity.tool"@
            },
        },
    )
}

/// What is done in a step, in one word.
pub fn activity_action_label(catalog: &Catalog, activity: &ActivityItem) -> (label: String)
    ensures
        label@ == action_label(catalog@, activity@),
{
    match activity.kind {
        ActivityKind::Reasoning => catalog.text("activity.action_think"),
        ActivityKind::Command => catalog.text("activity.action_run"),
        ActivityKind::FileChange => catalog.text("activity.action_edit"),
        ActivityKind::FileRead => catalog.text("activity.action_read"),
        ActivityKind::FileSearch | ActivityKind::Search => catalog.text("activity.action_search"),
        ActivityKind::FileList => catalog.text("activity.action_list"),
        ActivityKind::Plan => catalog.text("activity.action_plan"),
        ActivityKind::Tool => {
            if is_ask_user_question(activity) {
                catalog.text("activity.ask_questions")
            } else {
                catalog.text("activity.tool")
            }
        },
    }
}

/// How long a thought took, in seconds and at least one.
pub open spec fn thought_seconds(reasoning: ReasoningView) -> nat {
    let elapsed = if reasoning.finished_at_ms > reasoning.started_at_ms {
        (reasoning.finished_at_ms - reasoning.started_at_ms) as nat
    } else {
        0
    };
    let seconds = (elapsed + 999) / 1000;
    if seconds > 1 {
        seconds
    } else {
        1
    }
}

/// What a thought is called.
pub open spec fn reasoning_title(
    entries: Seq<(Seq<char>, Seq<char>)>,
    reasoning: ReasoningView,
    live: bool,
) -> Seq<char> {
    if live {
        i18n::plain(entries, "transcript.thinking"@)
    } else {
        i18n::localized(
            entries,
            "transcript.thought_for"@,
            seq![
                i18n::argument(
                    "duration"@,
                    duration::worked_duration(entries, thought_seconds(reasoning)),
                ),
            ],
        )
    }
}

/// What a thought is called: that it is going on, or how long it took.
pub fn reasoning_activity_title(catalog: &Catalog, reasoning: &ReasoningBlock, live: bool) -> (title:
    String)
    ensures
        title@ == reasoning_title(catalog@, reasoning@, live),
{
    if live {
        return catalog.text("transcript.thinking");
    }
    let elapsed: u64 = reasoning.finished_at_ms.saturating_sub(reasoning.started_at_ms);
    let whole: u64 = elapsed / 1000;
    let seconds: u64 = if elapsed % 1000 == 0 {
        whole
    } else {
        whole + 1
    };
    let shown: u64 = if seconds > 1 {
        seconds
    } else {
        1
    };
    assert(shown as nat == thought_seconds(reasoning@));
    let duration = duration::format_worked_duration(catalog, shown);
    catalog.text_with("transcript.thought_for", "duration", duration.as_str())
}

/// The step's own title, unless it only repeats the kind.
pub open spec fn custom_title(activity: ActivityView) -> Seq<char> {
    if activity.title_is_generic {
        Seq::empty()
    } else {
        activity.title
    }
}

/// What a step's row says beside what is done.
pub open spec fn row_detail(
    entries: Seq<(Seq<char>, Seq<char>)>,
    activity: ActivityView,
    target_name: Option<Seq<char>>,
    reasoning_live: bool,
) -> Seq<char> {
    match activity.kind {
        ActivityKind::Reasoning => match activity.reasoning {
            Some(reasoning) => reasoning_title(entries, reasoning, reasoning_live),
            None => activity.title,
        },
        ActivityKind::Command => match activity.display_description {
            Some(description) => description,
            None => match activity.display_target {
                Some(target) => target,
                None => custom_title(activity),
            },
        },
        ActivityKind::FileChange => match changes_name(entries, activity.file_changes) {
            Some(name) => name,
            None => custom_title(activity),
        },
        ActivityKind::FileRead | ActivityKind::FileList => match target_name {
            Some(name) => name,
            None => custom_title(activity),
        },
        ActivityKind::FileSearch => display_title(entries, activity, target_name),
        ActivityKind::Search => match activity.display_target {
            Some(query) => i18n::localized(
                entries,
                "activity.search_for"@,
                seq![i18n::argument("query"@, query)],
            ),
            None => custom_title(activity),
        },
        ActivityKind::Plan => custom_title(activity),
        ActivityKind::Tool => if asks_user(activity) {
            Seq::empty()
        } else if (activity.display_target matches Some(target) && !text::blank(target))
            || !activity.title_is_generic {
            tool_title(entries, activity)
        } else {
            Seq::empty()
        },
    }
}

fn own_title(activity: &ActivityItem) -> (title: String)
    ensures
        title@ == custom_title(activity@),
{
    if activity.title_is_generic {
        String::new()
    } else {
        activity.title.clone()
    }
}

/// What a step's row says beside what is done, given the last part of the
/// path it is about.
pub fn row_detail_for(
    catalog: &Catalog,
    activity: &ActivityItem,
    target_name: &Option<String>,
    reasoning_live: bool,
) -> (detail: String)
    ensures
        detail@ == row_detail(catalog@, activity@, text::text_view(*target_name), reasoning_live),
{
    match activity.kind {
        ActivityKind::Reasoning => {
            match &activity.reasoning {
                Some(reasoning) => reasoning_activity_title(catalog, reasoning, reasoning_live),
                None => activity.title.clone(),
            }
        },
        ActivityKind::Command => {
            if let Some(description) = &activity.display_description {
                return description.clone();
            }
            if let Some(target) = &activity.display_target {
                return target.clone();
            }
            own_title(activity)
        },
        ActivityKind::FileChange => {
            match name_changes(catalog, activity) {
                Some(name) => name,
                None => own_title(activity),
            }
        },
        ActivityKind::FileRead | ActivityKind::FileList => {
            match target_name {
                Some(name) => name.clone(),
                None => own_title(activity),
            }
        },
        ActivityKind::FileSearch => display_title_for(catalog, activity, target_name),
        ActivityKind::Search => {
            match &activity.display_target {
                Some(query) => catalog.text_with("activity.search_for", "query", query.as_str()),
                None => own_title(activity),
            }
        },
        ActivityKind::Plan => own_title(activity),
        ActivityKind::Tool => {
            if is_ask_user_question(activity) {
                return String::new();
            }
            let named: bool = match &activity.display_target {
                Some(target) => !text::is_blank(target.as_str()),
                None => false,
            };
            if named || !activity.title_is_generic {
                activity_tool_display_name(catalog, activity)
            } else {
                String::new()
            }
        },
    }
}

/// What a step's row says beside what is done.
pub fn activity_row_detail(catalog: &Catalog, activity: &ActivityItem, reasoning_live: bool) -> (detail:
    String)
    ensures
        exists|name: Option<Seq<char>>|
            names_target(activity@, name) && detail@ == #[trigger] row_detail(
                catalog@,
                activity@,
                name,
                reasoning_live,
            ),
{
    let name = target_name(activity);
    let detail = row_detail_for(catalog, activity, &name, reasoning_live);
    assert(names_target(activity@, text::text_view(name)));
    detail
}

// ── Several steps ──────────────────────────────────────────────────────────

/// One kind of step in the singular and the plural.
pub struct Noun {
    pub singular: String,
    pub plural: String,
}

/// What each kind of step is called.
pub struct ActivityNouns {
    pub reasoning: Noun,
    pub command: Noun,
    pub file_change: Noun,
    pub file_read: Noun,
    pub file_search: Noun,
    pub file_list: Noun,
    pub search: Noun,
    pub plan: Noun,
    pub tool: Noun,
}

impl ActivityNouns {
    /// What a kind of step is called.
    pub open spec fn noun(self, kind: ActivityKind) -> Noun {
        match kind {
            ActivityKind::Reasoning => self.reasoning,
            ActivityKind::Command => self.command,
            ActivityKind::FileChange => self.file_change,
            ActivityKind::FileRead => self.file_read,
            ActivityKind::FileSearch => self.file_search,
            ActivityKind::FileList => self.file_list,
            ActivityKind::Search => self.search,
            ActivityKind::Plan => self.plan,
            ActivityKind::Tool => self.tool,
        }
    }

    fn find(&self, kind: ActivityKind) -> (noun: &Noun)
        ensures
            *noun == self.noun(kind),
    {
        match kind {
            ActivityKind::Reasoning => &self.reasoning,
            ActivityKind::Command => &self.command,
            ActivityKind::FileChange => &self.file_change,
            ActivityKind::FileRead => &self.file_read,
            ActivityKind::FileSearch => &self.file_search,
            ActivityKind::FileList => &self.file_list,
            ActivityKind::Search => &self.search,
            ActivityKind::Plan => &self.plan,
            ActivityKind::Tool => &self.tool,
        }
    }
}

/// How many steps of one kind there are.
#[derive(Clone, Copy, Debug, PartialEq, Eq, Structural)]
pub struct KindCount {
    pub kind: ActivityKind,
    pub count: usize,
}

/// Where a kind is counted, or -1.
pub open spec fn count_of(counts: Seq<KindCount>, kind: ActivityKind) -> int
    decreases counts.len(),
{
    if counts.len() == 0 {
        -1
    } else if counts[0].kind == kind {
        0
    } else if count_of(counts.skip(1), kind) < 0 {
        -1
    } else {
        count_of(counts.skip(1), kind) + 1
    }
}

/// The counts with one more step of a kind: kinds stand in the order in which
/// they first appear.
pub open spec fn counted_step(counts: Seq<KindCount>, kind: ActivityKind) -> Seq<KindCount> {
    let at = count_of(counts, kind);
    if at >= 0 {
        counts.update(at, KindCount { kind, count: (counts[at].count + 1) as usize })
    } else {
        counts.push(KindCount { kind, count: 1 })
    }
}

/// The counts of the first `n` steps.
pub open spec fn kind_counts(activities: Seq<ActivityView>, n: int) -> Seq<KindCount>
    decreases n,
{
    if n <= 0 {
        Seq::empty()
    } else {
        counted_step(kind_counts(activities, n - 1), activities[n - 1].kind)
    }
}

/// One count with its noun.
pub open spec fn count_text(
    entries: Seq<(Seq<char>, Seq<char>)>,
    nouns: ActivityNouns,
    entry: KindCount,
) -> Seq<char> {
    let noun = nouns.noun(entry.kind);
    i18n::localized(
        entries,
        "activity.count"@,
        seq![
            i18n::argument("count"@, text::decimal_digits(entry.count as nat)),
            i18n::argument(
                "activity"@,
                if entry.count == 1 {
                    noun.singular@
                } else {
                    noun.plural@
                },
            ),
        ],
    )
}

/// The counts as texts.
pub open spec fn count_texts(
    entries: Seq<(Seq<char>, Seq<char>)>,
    nouns: ActivityNouns,
    counts: Seq<KindCount>,
) -> Seq<Seq<char>> {
    counts.map_values(|entry: KindCount| count_text(entries, nouns, entry))
}

/// Whether any step is still going on.
pub open spec fn any_running(activities: Seq<ActivityView>) -> bool {
    exists|i: int| 0 <= i < activities.len() && !(#[trigger] activities[i]).complete
}

/// What several steps are called together.
pub open spec fn summary(
    entries: Seq<(Seq<char>, Seq<char>)>,
    nouns: ActivityNouns,
    activities: Seq<ActivityView>,
) -> Seq<char> {
    let parts = count_texts(entries, nouns, kind_counts(activities, activities.len() as int));
    i18n::localized(
        entries,
        if any_running(activities) {
            "activity.running"@
        } else {
            "activity.ran"@
        },
        seq![i18n::argument("activities"@, text::joined(parts, " · "@))],
    )
}

fn find_count(counts: &Vec<KindCount>, kind: ActivityKind) -> (found: Option<usize>)
    ensures
        match found {
            Some(i) => i < counts@.len() && count_of(counts@, kind) == i && counts@[i as int].kind
                == kind,
            None => count_of(counts@, kind) < 0,
        },
{
    let mut i: usize = 0;
    assert(counts@.skip(0) =~= counts@);
    while i < counts.len()
        invariant
            i <= counts@.len(),
            count_of(counts@, kind) == (if count_of(counts@.skip(i as int), kind) < 0 {
                -1
            } else {
                count_of(counts@.skip(i as int), kind) + i
            }),
        decreases counts@.len() - i,
    {
        assert(counts@.skip(i as int)[0] == counts@[i as int]);
        assert(counts@.skip(i as int).skip(1) =~= counts@.skip(i + 1));
        if counts[i].kind == kind {
            return Some(i);
        }
        i += 1;
    }
    None
}

/// What several steps are called together: how many there are of each kind.
pub fn activity_summary(catalog: &Catalog, nouns: &ActivityNouns, activities: &Vec<ActivityItem>) -> (text:
    String)
    ensures
        text@ == summary(catalog@, *nouns, crate::model::activities_view(activities@)),
{
    let ghost views = crate::model::activities_view(activities@);
    let mut counts: Vec<KindCount> = Vec::new();
    let mut running: bool = false;
    let mut i: usize = 0;
    while i < activities.len()
        invariant
            i <= activities@.len(),
            views == crate::model::activities_view(activities@),
            counts@ == kind_counts(views, i as int),
            forall|k: int| 0 <= k < counts@.len() ==> (#[trigger] counts@[k]).count <= i,
            running == exists|k: int| 0 <= k < i && !(#[trigger] views[k]).complete,
        decreases activities@.len() - i,
    {
        assert(views[i as int] == activities@[i as int]@);
        let kind = activities[i].kind;
        match find_count(&counts, kind) {
            Some(at) => {
                let count: usize = counts[at].count;
                counts[at].count = count + 1;
            },
            None => {
                counts.push(KindCount { kind, count: 1 });
            },
        }
        assert(counts@ =~= counted_step(kind_counts(views, i as int), kind));
        if !activities[i].complete {
            running = true;
        }
        i += 1;
    }
    let mut parts: Vec<String> = Vec::new();
    let mut j: usize = 0;
    while j < counts.len()
        invariant
            j <= counts@.len(),
            text::texts_view(parts@) == count_texts(catalog@, *nouns, counts@).take(j as int),
        decreases counts@.len() - j,
    {
        let entry = counts[j];
        let noun = nouns.find(entry.kind);
        let count = text::decimal(entry.count as u64);
        let ghost before = text::texts_view(parts@);
        let part = catalog.text_with_two(
            "activity.count",
            "count",
            count.as_str(),
            "activity",
            if entry.count == 1 {
                noun.singular.as_str()
            } else {
                noun.plural.as_str()
            },
        );
        parts.push(part);
        assert(text::texts_view(parts@) =~= before.push(part@));
        assert(count_texts(catalog@, *nouns, counts@).take(j + 1) =~= count_texts(
            catalog@,
            *nouns,
            counts@,
        ).take(j as int).push(count_text(catalog@, *nouns, entry)));
        j += 1;
    }
    assert(count_texts(catalog@, *nouns, counts@).take(j as int) =~= count_texts(
        catalog@,
        *nouns,
        counts@,
    ));
    let joined = text::join(&parts, " · ");
    if running {
        catalog.text_with("activity.running", "activities", joined.as_str())
    } else {
        catalog.text_with("activity.ran", "activities", joined.as_str())
    }
}

/// Whether a group of steps is the one the live turn works in: the last block
/// of a running turn, with no message after it.
pub fn activity_group_is_live(
    live_turn: bool,
    latest_block: bool,
    after_message: usize,
    message_count: usize,
) -> (live: bool)
    ensures
        live == (live_turn && latest_block && after_message == message_count),
{
    live_turn && latest_block && after_message == message_count
}

/// What heads a group of steps. `target_name` is the last part of the path
/// its last step is about.
pub open spec fn header_title(
    entries: Seq<(Seq<char>, Seq<char>)>,
    nouns: ActivityNouns,
    activities: Seq<ActivityView>,
    target_name: Option<Seq<char>>,
    live_group: bool,
    live_reasoning: Option<Id>,
) -> Seq<char> {
    if live_group && activities.len() > 0 {
        match activities.last().reasoning {
            Some(reasoning) => reasoning_title(
                entries,
                reasoning,
                live_reasoning == Some(activities.last().id),
            ),
            None => display_title(entries, activities.last(), target_name),
        }
    } else {
        summary(entries, nouns, activities)
    }
}

/// What heads a group of steps: the step that is going on while the group is
/// live, else the summary. `target_name` is the last part of the path the
/// last step is about.
pub fn header_title_for(
    catalog: &Catalog,
    nouns: &ActivityNouns,
    activities: &Vec<ActivityItem>,
    target_name: &Option<String>,
    live_group: bool,
    live_reasoning: Option<Id>,
) -> (title: String)
    ensures
        title@ == header_title(
            catalog@,
            *nouns,
            crate::model::activities_view(activities@),
            text::text_view(*target_name),
            live_group,
            live_reasoning,
        ),
{
    let count: usize = activities.len();
    if live_group && count > 0 {
        let activity = &activities[count - 1];
        assert(crate::model::activities_view(activities@).last() == activity@);
        return match &activity.reasoning {
            Some(reasoning) => reasoning_activity_title(
                catalog,
                reasoning,
                live_reasoning == Some(activity.id),
            ),
            None => display_title_for(catalog, activity, target_name),
        };
    }
    activity_summary(catalog, nouns, activities)
}

/// What heads a group of steps.
pub fn activity_header_title(
    catalog: &Catalog,
    nouns: &ActivityNouns,
    activities: &Vec<ActivityItem>,
    live_group: bool,
    live_reasoning: Option<Id>,
) -> (title: String)
    ensures
        exists|name: Option<Seq<char>>|
            (activities@.len() > 0 ==> names_target(activities@.last()@, name)) && title@
                == #[trigger] header_title(
                catalog@,
                *nouns,
                crate::model::activities_view(activities@),
                name,
                live_group,
                live_reasoning,
            ),
{
    let count: usize = activities.len();
    let name: Option<String> = if count > 0 {
        target_name(&activities[count - 1])
    } else {
        None
    };
    assert(count > 0 ==> names_target(activities@.last()@, text::text_view(name)));
    header_title_for(catalog, nouns, activities, &name, live_group, live_reasoning)
}

// ── Edits ──────────────────────────────────────────────────────────────────

/// Whether an edit comes with a diff.
pub open spec fn has_diff(activity: ActivityView) -> bool {
    activity.kind == ActivityKind::FileChange && exists|i: int|
        0 <= i < activity.file_changes.len() && (#[trigger] activity.file_changes[i]).diff is Some
}

/// Whether a step's expanded view shows a diff instead of the arguments that
/// produced it.
pub fn activity_shows_diff(activity: &ActivityItem) -> (result: bool)
    ensures
        result == has_diff(activity@),
{
    if activity.kind != ActivityKind::FileChange {
        return false;
    }
    let mut i: usize = 0;
    while i < activity.file_changes.len()
        invariant
            i <= activity.file_changes@.len(),
            activity.kind == ActivityKind::FileChange,
            forall|k: int|
                0 <= k < i ==> (#[trigger] activity@.file_changes[k]).diff is None,
        decreases activity.file_changes@.len() - i,
    {
        assert(activity@.file_changes[i as int] == activity.file_changes@[i as int]@);
        if activity.file_changes[i].diff.is_some() {
            return true;
        }
        i += 1;
    }
    false
}

/// The sum of the first `n` numbers, where each is known.
pub open spec fn total(numbers: Seq<Option<u64>>, n: int) -> Option<nat>
    decreases n,
{
    if n <= 0 {
        Some(0)
    } else {
        match (total(numbers, n - 1), numbers[n - 1]) {
            (Some(sum), Some(number)) => Some(sum + number as nat),
            _ => None,
        }
    }
}

/// The added lines of each edited file.
pub open spec fn additions_of(changes: Seq<FileChangeView>) -> Seq<Option<u64>> {
    changes.map_values(|change: FileChangeView| change.additions)
}

/// The removed lines of each edited file.
pub open spec fn deletions_of(changes: Seq<FileChangeView>) -> Seq<Option<u64>> {
    changes.map_values(|change: FileChangeView| change.deletions)
}

/// Whether a known sum fits in 64 bits.
pub open spec fn fits(sum: Option<nat>) -> bool {
    sum matches Some(sum) ==> sum <= u64::MAX
}

proof fn lemma_total_partial(numbers: Seq<Option<u64>>, n: int, end: int)
    requires
        0 <= n <= end <= numbers.len(),
        total(numbers, end) is Some,
    ensures
        total(numbers, n) is Some && total(numbers, n)->0 <= total(numbers, end)->0,
    decreases end,
{
    if n < end {
        lemma_total_partial(numbers, n, end - 1);
    }
}

proof fn lemma_none_stays(numbers: Seq<Option<u64>>, n: int, end: int)
    requires
        0 <= n <= end <= numbers.len(),
    ensures
        total(numbers, n) is None ==> total(numbers, end) is None,
    decreases end,
{
    if n < end {
        lemma_none_stays(numbers, n, end - 1);
    }
}

/// How many lines a finished edit added and removed, where every file says.
pub fn activity_file_change_stats(activity: &ActivityItem) -> (stats: Option<(u64, u64)>)
    requires
        fits(
            total(
                additions_of(activity@.file_changes),
                activity@.file_changes.len() as int,
            ),
        ),
        fits(
            total(
                deletions_of(activity@.file_changes),
                activity@.file_changes.len() as int,
            ),
        ),
    ensures
        ({
            let changes = activity@.file_changes;
            let additions = total(additions_of(changes), changes.len() as int);
            let deletions = total(deletions_of(changes), changes.len() as int);
            match stats {
                Some((added, removed)) => activity.kind == ActivityKind::FileChange
                    && activity.complete && !activity.failed && changes.len() > 0 && additions
                    == Some(added as nat) && deletions == Some(removed as nat),
                None => activity.kind != ActivityKind::FileChange || !activity.complete
                    || activity.failed || changes.len() == 0 || additions is None || deletions
                    is None,
            }
        }),
{
    if activity.kind != ActivityKind::FileChange || !activity.complete || activity.failed
        || activity.file_changes.is_empty() {
        return None;
    }
    let ghost changes = activity@.file_changes;
    let ghost additions = additions_of(changes);
    let ghost deletions = deletions_of(changes);
    let mut added: u64 = 0;
    let mut removed: u64 = 0;
    let mut i: usize = 0;
    while i < activity.file_changes.len()
        invariant
            i <= activity.file_changes@.len(),
            changes == activity@.file_changes,
            changes.len() > 0,
            additions == additions_of(changes),
            deletions == deletions_of(changes),
            fits(total(additions, changes.len() as int)),
            fits(total(deletions, changes.len() as int)),
            activity.kind == ActivityKind::FileChange && activity.complete && !activity.failed,
            total(additions, i as int) == Some(added as nat),
            total(deletions, i as int) == Some(removed as nat),
        decreases activity.file_changes@.len() - i,
    {
        let change = &activity.file_changes[i];
        assert(changes[i as int] == change@);
        proof {
            lemma_none_stays(additions, i + 1, changes.len() as int);
            lemma_none_stays(deletions, i + 1, changes.len() as int);
        }
        match (change.additions, change.deletions) {
            (Some(more), Some(less)) => {
                proof {
                    if total(additions, changes.len() as int) is Some {
                        lemma_total_partial(additions, i + 1, changes.len() as int);
                    }
                    if total(deletions, changes.len() as int) is Some {
                        lemma_total_partial(deletions, i + 1, changes.len() as int);
                    }
                }
                match (added.checked_add(more), removed.checked_add(less)) {
                    (Some(new_added), Some(new_removed)) => {
                        added = new_added;
                        removed = new_removed;
                    },
                    _ => {
                        return None;
                    },
                }
            },
            _ => {
                return None;
            },
        }
        i += 1;
    }
    Some((added, removed))
}

// ── Disclosure ─────────────────────────────────────────────────────────────

/// What a disclosed section holds.
#[derive(Clone, Copy, Debug, PartialEq, Eq, Structural, Hash)]
pub enum ActivityDisclosureSectionKind {
    Command,
    Arguments,
    Output,
    Detail,
}

impl ActivityDisclosureSectionKind {
    /// The name a section is found under.
    pub fn id(self) -> (id: &'static str)
        ensures
            id@ == match self {
                ActivityDisclosureSectionKind::Command => "command"@,
                ActivityDisclosureSectionKind::Arguments => "arguments"@,
                ActivityDisclosureSectionKind::Output => "output"@,
                ActivityDisclosureSectionKind::Detail => "detail"@,
            },
    {
        match self {
            ActivityDisclosureSectionKind::Command => "command",
            ActivityDisclosureSectionKind::Arguments => "arguments",
            ActivityDisclosureSectionKind::Output => "output",
            ActivityDisclosureSectionKind::Detail => "detail",
        }
    }

    /// What heads a section; a detail has no heading.
    pub fn label(self, catalog: &Catalog) -> (label: Option<String>)
        ensures
            text::text_view(label) == match self {
                ActivityDisclosureSectionKind::Command => Some(
                    i18n::plain(catalog@, "activity.command_detail"@),
                ),
                ActivityDisclosureSectionKind::Arguments => Some(
                    i18n::plain(catalog@, "activity.arguments"@),
                ),
                ActivityDisclosureSectionKind::Output => Some(
                    i18n::plain(catalog@, "activity.output"@),
                ),
                ActivityDisclosureSectionKind::Detail => None,
            },
    {
        match self {
            ActivityDisclosureSectionKind::Command => Some(catalog.text("activity.command_detail")),
            ActivityDisclosureSectionKind::Arguments => Some(catalog.text("activity.arguments")),
            ActivityDisclosureSectionKind::Output => Some(catalog.text("activity.output")),
            ActivityDisclosureSectionKind::Detail => None,
        }
    }
}

/// One disclosed section.
pub struct ActivityDisclosureSection {
    pub kind: ActivityDisclosureSectionKind,
    pub content: String,
}

pub struct SectionView {
    pub kind: ActivityDisclosureSectionKind,
    pub content: Seq<char>,
}

impl View for ActivityDisclosureSection {
    type V = SectionView;

    open spec fn view(&self) -> SectionView {
        SectionView { kind: self.kind, content: self.content@ }
    }
}

/// The views of the sections.
pub open spec fn sections_view(sections: Seq<ActivityDisclosureSection>) -> Seq<SectionView> {
    sections.map_values(|section: ActivityDisclosureSection| section@)
}

/// A text without the whitespace around it, if anything remains.
pub open spec fn said(text: Option<Seq<char>>) -> Option<Seq<char>> {
    match text {
        Some(text) => if text::trimmed(text).len() > 0 {
            Some(text::trimmed(text))
        } else {
            None
        },
        None => None,
    }
}

/// A section of this kind, where there is something to say.
pub open spec fn section(
    kind: ActivityDisclosureSectionKind,
    content: Option<Seq<char>>,
) -> Seq<SectionView> {
    match content {
        Some(content) => seq![SectionView { kind, content }],
        None => Seq::empty(),
    }
}

/// The output of a step: its text, or an empty section for its images.
pub open spec fn output_section(activity: ActivityView, text: Option<Seq<char>>) -> Seq<
    SectionView,
> {
    if text is None && activity.image_urls.len() > 0 {
        section(ActivityDisclosureSectionKind::Output, Some(Seq::empty()))
    } else {
        section(ActivityDisclosureSectionKind::Output, text)
    }
}

/// What a step discloses. A command discloses its command line and output. A
/// diff says everything that the arguments of an edit would; what the tool
/// replied is shown beside it only where the edit failed. The detail stands
/// in where nothing else does.
pub open spec fn disclosed(activity: ActivityView) -> Seq<SectionView> {
    if activity.kind == ActivityKind::Command {
        section(
            ActivityDisclosureSectionKind::Command,
            said(
                if activity.arguments is Some {
                    activity.arguments
                } else {
                    activity.display_target
                },
            ),
        ) + output_section(activity, said(activity.output))
    } else {
        let arguments = if has_diff(activity) {
            Seq::empty()
        } else {
            section(ActivityDisclosureSectionKind::Arguments, said(activity.arguments))
        };
        let output = output_section(
            activity,
            if has_diff(activity) && !activity.failed {
                None
            } else {
                said(activity.output)
            },
        );
        let sections = arguments + output;
        if sections.len() == 0 {
            section(ActivityDisclosureSectionKind::Detail, said(activity.detail))
        } else {
            sections
        }
    }
}

fn said_text(text: &Option<String>) -> (result: Option<String>)
    ensures
        text::text_view(result) == said(text::text_view(*text)),
{
    match text {
        Some(text) => {
            let trimmed = text::trim(text.as_str());
            if trimmed.as_str().is_empty() {
                None
            } else {
                Some(trimmed)
            }
        },
        None => None,
    }
}

fn push_section(
    sections: &mut Vec<ActivityDisclosureSection>,
    kind: ActivityDisclosureSectionKind,
    content: Option<String>,
)
    ensures
        sections_view(final(sections)@) == sections_view(old(sections)@) + section(
            kind,
            text::text_view(content),
        ),
{
    let ghost before = sections_view(sections@);
    match content {
        Some(content) => {
            let ghost added = SectionView { kind, content: content@ };
            sections.push(ActivityDisclosureSection { kind, content });
            assert(sections_view(sections@) =~= before + seq![added]);
        },
        None => {
            assert(before + Seq::<SectionView>::empty() =~= before);
        },
    }
}

fn push_output(
    sections: &mut Vec<ActivityDisclosureSection>,
    activity: &ActivityItem,
    content: Option<String>,
)
    ensures
        sections_view(final(sections)@) == sections_view(old(sections)@) + output_section(
            activity@,
            text::text_view(content),
        ),
{
    if content.is_none() && !activity.image_urls.is_empty() {
        push_section(sections, ActivityDisclosureSectionKind::Output, Some(String::new()));
    } else {
        push_section(sections, ActivityDisclosureSectionKind::Output, content);
    }
}

/// What a step discloses.
pub fn activity_disclosure_sections(activity: &ActivityItem) -> (sections: Vec<
    ActivityDisclosureSection,
>)
    ensures
        sections_view(sections@) == disclosed(activity@),
{
    let mut sections: Vec<ActivityDisclosureSection> = Vec::new();
    let ghost none = Seq::<SectionView>::empty();
    assert(sections_view(sections@) =~= none);
    if activity.kind == ActivityKind::Command {
        let command = if activity.arguments.is_some() {
            said_text(&activity.arguments)
        } else {
            said_text(&activity.display_target)
        };
        let ghost shown = section(ActivityDisclosureSectionKind::Command, text::text_view(command));
        push_section(&mut sections, ActivityDisclosureSectionKind::Command, command);
        assert(none + shown =~= shown);
        push_output(&mut sections, activity, said_text(&activity.output));
        return sections;
    }
    let shows_diff = activity_shows_diff(activity);
    if !shows_diff {
        let arguments = said_text(&activity.arguments);
        let ghost shown = section(
            ActivityDisclosureSectionKind::Arguments,
            text::text_view(arguments),
        );
        push_section(&mut sections, ActivityDisclosureSectionKind::Arguments, arguments);
        assert(none + shown =~= shown);
    }
    let output = if shows_diff && !activity.failed {
        None
    } else {
        said_text(&activity.output)
    };
    push_output(&mut sections, activity, output);
    assert(sections_view(sections@).len() == sections@.len());
    if sections.is_empty() {
        let detail = said_text(&activity.detail);
        let ghost shown = section(ActivityDisclosureSectionKind::Detail, text::text_view(detail));
        push_section(&mut sections, ActivityDisclosureSectionKind::Detail, detail);
        assert(none + shown =~= shown);
    }
    sections
}

/// The first line that is not blank.
pub open spec fn first_line(lines: Seq<Seq<char>>) -> Option<Seq<char>>
    decreases lines.len(),
{
    if lines.len() == 0 {
        None
    } else if !text::blank(lines[0]) {
        Some(lines[0])
    } else {
        first_line(lines.skip(1))
    }
}

/// A step's detail without the whitespace around it.
pub open spec fn shown_detail(activity: ActivityView) -> Seq<char> {
    match activity.detail {
        Some(detail) => text::trimmed(detail),
        None => text::trimmed(Seq::empty()),
    }
}

/// What a collapsed step shows of its result: its detail, but the first line
/// of the output where the detail only says that it failed, and a word for
/// images where there is no text.
pub open spec fn preview(entries: Seq<(Seq<char>, Seq<char>)>, activity: ActivityView) -> Seq<char> {
    let detail = shown_detail(activity);
    let failed = text::ascii_lowercase_of(detail) == "failed"@;
    let line = match activity.output {
        Some(output) => first_line(crate::streaming::lines(output)),
        None => None,
    };
    if failed && line is Some {
        text::trimmed(line->0)
    } else if (detail.len() == 0 || failed) && activity.image_urls.len() > 0 {
        i18n::plain(entries, "activity.image_output"@)
    } else {
        detail
    }
}

fn find_first_line(output: &String) -> (line: Option<String>)
    ensures
        text::text_view(line) == first_line(crate::streaming::lines(output@)),
{
    let parts = crate::streaming::split_lines(output.as_str());
    let ghost all = text::texts_view(parts@);
    let mut i: usize = 0;
    assert(all.skip(0) =~= all);
    while i < parts.len()
        invariant
            i <= parts@.len(),
            all == text::texts_view(parts@),
            all == crate::streaming::lines(output@),
            first_line(all) == first_line(all.skip(i as int)),
        decreases parts@.len() - i,
    {
        assert(all.skip(i as int)[0] == parts@[i as int]@);
        assert(all.skip(i as int).skip(1) =~= all.skip(i + 1));
        if !text::is_blank(parts[i].as_str()) {
            return Some(parts[i].clone());
        }
        i += 1;
    }
    None
}

/// What a collapsed step shows of its result.
pub fn activity_preview(catalog: &Catalog, activity: &ActivityItem) -> (shown: String)
    ensures
        shown@ == preview(catalog@, activity@),
{
    let detail: String = match &activity.detail {
        Some(detail) => text::trim(detail.as_str()),
        None => {
            let none = String::new();
            text::trim(none.as_str())
        },
    };
    let lower = text::ascii_lowercase(detail.as_str());
    let failed: bool = text::same(lower.as_str(), "failed");
    if failed {
        if let Some(output) = &activity.output {
            if let Some(line) = find_first_line(output) {
                return text::trim(line.as_str());
            }
        }
    }
    if (detail.as_str().is_empty() || failed) && !activity.image_urls.is_empty() {
        return catalog.text("activity.image_output");
    }
    detail
}

/// A command never discloses its arguments and an edit with a diff never
/// repeats them: the two would say the same thing twice.
pub proof fn a_diff_replaces_the_arguments(activity: ActivityView)
    requires
        has_diff(activity) || activity.kind == ActivityKind::Command,
    ensures
        forall|i: int|
            0 <= i < disclosed(activity).len() ==> (#[trigger] disclosed(activity)[i]).kind
                != ActivityDisclosureSectionKind::Arguments,
{
}

} // verus!
