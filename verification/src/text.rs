//! Text as sequences of characters: trimming, joining, splitting and
//! numbering, each with the exact character sequence it yields.
use vstd::prelude::*;
use vstd::utf8::*;

verus! {

/// `String::push` appends one character at the end.
pub assume_specification[ String::push ](s: &mut String, c: char)
    ensures
        final(s)@ == old(s)@.push(c),
;

/// Whether `char::is_whitespace` holds of `c`: the Unicode `White_Space`
/// property.
pub uninterp spec fn is_whitespace(c: char) -> bool;

/// `char::is_whitespace` depends on the character alone. Of ASCII, the space,
/// the tab, the line feed, the vertical tab, the form feed and the carriage
/// return are whitespace, and no graphic character is.
pub assume_specification[ char::is_whitespace ](c: char) -> (found: bool)
    ensures
        found == is_whitespace(c),
        c == ' ' || 9 <= c as u32 <= 13 ==> found,
        0x21 <= c as u32 <= 0x7e ==> !found,
;

// ── Characters in and out ──────────────────────────────────────────────────

/// The characters of a text, in order.
pub fn chars_of(text: &str) -> (chars: Vec<char>)
    ensures
        chars@ == text@,
{
    let mut chars: Vec<char> = Vec::new();
    for c in iter: text.chars()
        invariant
            iter.seq() == text@,
            chars@ == iter.seq().take(iter.index()),
    {
        proof {
            assert(iter.seq().take(iter.index() + 1) == iter.seq().take(iter.index()).push(c));
        }
        chars.push(c);
    }
    assert(text@.take(text@.len() as int) == text@);
    chars
}

/// The text made of the characters from `from` up to `to`.
pub fn text_of(chars: &Vec<char>, from: usize, to: usize) -> (text: String)
    requires
        from <= to <= chars@.len(),
    ensures
        text@ == chars@.subrange(from as int, to as int),
{
    let mut text = String::new();
    let mut i: usize = from;
    while i < to
        invariant
            from <= i <= to <= chars@.len(),
            text@ == chars@.subrange(from as int, i as int),
        decreases to - i,
    {
        assert(chars@.subrange(from as int, i + 1) == chars@.subrange(from as int, i as int).push(
            chars@[i as int],
        ));
        text.push(chars[i]);
        i += 1;
    }
    text
}

/// Whether two texts hold the same characters.
pub fn same(a: &str, b: &str) -> (equal: bool)
    ensures
        equal == (a@ == b@),
{
    a.to_owned() == b.to_owned()
}

/// An owned copy of a text.
pub fn owned(text: &str) -> (copy: String)
    ensures
        copy@ == text@,
{
    text.to_owned()
}

/// The view of an optional text.
pub open spec fn text_view(text: Option<String>) -> Option<Seq<char>> {
    match text {
        Some(text) => Some(text@),
        None => None,
    }
}

/// The views of several texts.
pub open spec fn texts_view(texts: Seq<String>) -> Seq<Seq<char>> {
    texts.map_values(|text: String| text@)
}

/// A copy of an optional text.
pub fn copy_text(text: &Option<String>) -> (copy: Option<String>)
    ensures
        copy == *text,
{
    match text {
        Some(text) => Some(text.clone()),
        None => None,
    }
}

// ── Trimming ───────────────────────────────────────────────────────────────

/// `text` without its leading whitespace.
pub open spec fn trim_start(text: Seq<char>) -> Seq<char>
    decreases text.len(),
{
    if text.len() > 0 && is_whitespace(text[0]) {
        trim_start(text.skip(1))
    } else {
        text
    }
}

/// `text` without its trailing whitespace.
pub open spec fn trim_end(text: Seq<char>) -> Seq<char>
    decreases text.len(),
{
    if text.len() > 0 && is_whitespace(text.last()) {
        trim_end(text.drop_last())
    } else {
        text
    }
}

/// `text` without the whitespace around it.
pub open spec fn trimmed(text: Seq<char>) -> Seq<char> {
    trim_end(trim_start(text))
}

/// Whether a text is made of whitespace alone, so that nothing of it remains
/// after trimming.
pub open spec fn blank(text: Seq<char>) -> bool {
    forall|i: int| 0 <= i < text.len() ==> is_whitespace(#[trigger] text[i])
}

proof fn lemma_trim_start_at(text: Seq<char>, k: int)
    requires
        0 <= k <= text.len(),
        forall|i: int| 0 <= i < k ==> is_whitespace(#[trigger] text[i]),
        k < text.len() ==> !is_whitespace(text[k]),
    ensures
        trim_start(text) == text.skip(k),
    decreases k,
{
    if k == 0 {
        assert(text.skip(0) == text);
    } else {
        let rest = text.skip(1);
        assert forall|i: int| 0 <= i < k - 1 implies is_whitespace(#[trigger] rest[i]) by {
            assert(rest[i] == text[i + 1]);
        }
        lemma_trim_start_at(rest, k - 1);
        assert(rest.skip(k - 1) == text.skip(k));
    }
}

proof fn lemma_trim_end_at(text: Seq<char>, k: int)
    requires
        0 <= k <= text.len(),
        forall|i: int| k <= i < text.len() ==> is_whitespace(#[trigger] text[i]),
        k > 0 ==> !is_whitespace(text[k - 1]),
    ensures
        trim_end(text) == text.take(k),
    decreases text.len() - k,
{
    if k == text.len() {
        assert(text.take(k) == text);
    } else {
        let rest = text.drop_last();
        assert forall|i: int| k <= i < rest.len() implies is_whitespace(#[trigger] rest[i]) by {
            assert(rest[i] == text[i]);
        }
        lemma_trim_end_at(rest, k);
        assert(rest.take(k) == text.take(k));
    }
}

/// A blank text is exactly one that trimming empties.
pub proof fn blank_is_empty_after_trimming(text: Seq<char>)
    ensures
        blank(text) <==> trimmed(text).len() == 0,
    decreases text.len(),
{
    if text.len() > 0 && is_whitespace(text[0]) {
        let rest = text.skip(1);
        blank_is_empty_after_trimming(rest);
        if blank(rest) {
            assert forall|i: int| 0 <= i < text.len() implies is_whitespace(#[trigger] text[i]) by {
                if i > 0 {
                    assert(rest[i - 1] == text[i]);
                }
            }
        }
        if blank(text) {
            assert forall|i: int| 0 <= i < rest.len() implies is_whitespace(#[trigger] rest[i]) by {
                assert(rest[i] == text[i + 1]);
            }
        }
    } else if text.len() > 0 {
        assert(!blank(text));
        lemma_trim_end_keeps_head(text);
    }
}

proof fn lemma_trim_end_keeps_head(text: Seq<char>)
    requires
        text.len() > 0,
        !is_whitespace(text[0]),
    ensures
        trim_end(text).len() > 0,
    decreases text.len(),
{
    if is_whitespace(text.last()) {
        assert(text.drop_last()[0] == text[0]);
        lemma_trim_end_keeps_head(text.drop_last());
    }
}

/// The text without the whitespace around it.
pub fn trim(text: &str) -> (result: String)
    ensures
        result@ == trimmed(text@),
{
    let chars = chars_of(text);
    let mut from: usize = 0;
    while from < chars.len() && chars[from].is_whitespace()
        invariant
            from <= chars@.len(),
            forall|i: int| 0 <= i < from ==> is_whitespace(#[trigger] chars@[i]),
        decreases chars@.len() - from,
    {
        from += 1;
    }
    let mut to: usize = chars.len();
    while to > from && chars[to - 1].is_whitespace()
        invariant
            from <= to <= chars@.len(),
            forall|i: int| to <= i < chars@.len() ==> is_whitespace(#[trigger] chars@[i]),
        decreases to,
    {
        to -= 1;
    }
    proof {
        lemma_trim_start_at(chars@, from as int);
        let rest = chars@.skip(from as int);
        assert forall|i: int| to - from <= i < rest.len() implies is_whitespace(#[trigger] rest[i]) by {
            assert(rest[i] == chars@[i + from]);
        }
        if to > from {
            assert(rest[to - from - 1] == chars@[to - 1]);
        }
        lemma_trim_end_at(rest, to - from);
        assert(rest.take(to - from) == chars@.subrange(from as int, to as int));
    }
    text_of(&chars, from, to)
}

/// Whether nothing but whitespace stands in the text.
pub fn is_blank(text: &str) -> (result: bool)
    ensures
        result == blank(text@),
        result == (trimmed(text@).len() == 0),
{
    let chars = chars_of(text);
    let mut i: usize = 0;
    while i < chars.len()
        invariant
            i <= chars@.len(),
            chars@ == text@,
            forall|j: int| 0 <= j < i ==> is_whitespace(#[trigger] chars@[j]),
        decreases chars@.len() - i,
    {
        if !chars[i].is_whitespace() {
            proof {
                blank_is_empty_after_trimming(text@);
            }
            return false;
        }
        i += 1;
    }
    proof {
        blank_is_empty_after_trimming(text@);
    }
    true
}

// ── Joining ────────────────────────────────────────────────────────────────

/// The parts one after another with `separator` between neighbours.
pub open spec fn joined(parts: Seq<Seq<char>>, separator: Seq<char>) -> Seq<char>
    decreases parts.len(),
{
    if parts.len() == 0 {
        Seq::empty()
    } else if parts.len() == 1 {
        parts[0]
    } else {
        joined(parts.drop_last(), separator) + separator + parts.last()
    }
}

/// The texts one after another with `separator` between neighbours.
pub fn join(parts: &Vec<String>, separator: &str) -> (text: String)
    ensures
        text@ == joined(texts_view(parts@), separator@),
{
    let mut text = String::new();
    let mut i: usize = 0;
    while i < parts.len()
        invariant
            i <= parts@.len(),
            text@ == joined(texts_view(parts@).take(i as int), separator@),
        decreases parts@.len() - i,
    {
        let ghost whole = texts_view(parts@);
        assert(whole.take(i + 1).drop_last() == whole.take(i as int));
        assert(whole.take(i + 1).last() == parts@[i as int]@);
        if i > 0 {
            text.append(separator);
        }
        text.append(parts[i].as_str());
        proof {
            if i == 0 {
                assert(whole.take(1)[0] == parts@[0]@);
                assert(whole.take(0).len() == 0);
                assert(text@ == parts@[0]@);
            }
        }
        i += 1;
    }
    assert(texts_view(parts@).take(parts@.len() as int) == texts_view(parts@));
    text
}

// ── Numbers ────────────────────────────────────────────────────────────────

/// The decimal digit for a value below ten.
pub open spec fn digit_char(value: nat) -> char {
    (48 + value) as char
}

/// A number in decimal notation, without leading zeros.
pub open spec fn decimal_digits(value: nat) -> Seq<char>
    decreases value,
{
    if value < 10 {
        seq![digit_char(value)]
    } else {
        decimal_digits(value / 10).push(digit_char(value % 10))
    }
}

fn digit(value: u64) -> (c: char)
    requires
        value < 10,
    ensures
        c == digit_char(value as nat),
{
    match value {
        0 => '0',
        1 => '1',
        2 => '2',
        3 => '3',
        4 => '4',
        5 => '5',
        6 => '6',
        7 => '7',
        8 => '8',
        _ => '9',
    }
}

/// A number in decimal notation.
pub fn decimal(value: u64) -> (text: String)
    ensures
        text@ == decimal_digits(value as nat),
    decreases value,
{
    if value < 10 {
        let mut text = String::new();
        text.push(digit(value));
        assert(text@ == seq![digit_char(value as nat)]);
        text
    } else {
        let mut text = decimal(value / 10);
        text.push(digit(value % 10));
        text
    }
}

// ── Bytes ──────────────────────────────────────────────────────────────────

/// How many bytes a text takes in UTF-8.
pub open spec fn byte_len(text: Seq<char>) -> nat {
    encode_utf8(text).len()
}

/// The longest prefix of `text` that ends between two characters and takes at
/// most `limit` bytes in UTF-8.
pub open spec fn byte_prefix(text: Seq<char>, limit: nat) -> Seq<char>
    decreases text.len(),
{
    if text.len() == 0 || byte_len(text) <= limit {
        text
    } else {
        byte_prefix(text.drop_last(), limit)
    }
}

/// How many bytes one character takes in UTF-8.
fn utf8_width(c: char) -> (width: usize)
    ensures
        width == encode_scalar(c as u32).len(),
        1 <= width <= 4,
{
    broadcast use char_is_scalar;

    let value: u32 = c as u32;
    if value < 0x80 {
        1
    } else if value < 0x800 {
        2
    } else if value < 0x10000 {
        3
    } else {
        4
    }
}

proof fn lemma_byte_len_push(text: Seq<char>, c: char)
    ensures
        byte_len(text.push(c)) == byte_len(text) + encode_scalar(c as u32).len(),
    decreases text.len(),
{
    let longer = text.push(c);
    if text.len() == 0 {
        assert(longer.drop_first() == Seq::<char>::empty());
        assert(encode_utf8(Seq::<char>::empty()).len() == 0);
        assert(encode_utf8(longer) == encode_scalar(longer[0] as u32) + encode_utf8(longer.drop_first()));
    } else {
        assert(longer.drop_first() == text.drop_first().push(c));
        lemma_byte_len_push(text.drop_first(), c);
        assert(encode_utf8(longer) == encode_scalar(longer[0] as u32) + encode_utf8(longer.drop_first()));
        assert(encode_utf8(text) == encode_scalar(text[0] as u32) + encode_utf8(text.drop_first()));
    }
}

proof fn lemma_byte_len_monotone(text: Seq<char>, k: int)
    requires
        0 <= k <= text.len(),
    ensures
        byte_len(text.take(k)) + (text.len() - k) <= byte_len(text),
    decreases text.len() - k,
{
    broadcast use char_is_scalar;

    if k == text.len() {
        assert(text.take(k) == text);
    } else {
        lemma_byte_len_monotone(text, k + 1);
        assert(text.take(k + 1) == text.take(k).push(text[k]));
        lemma_byte_len_push(text.take(k), text[k]);
    }
}

proof fn lemma_byte_prefix_at(text: Seq<char>, k: int, limit: nat)
    requires
        0 <= k <= text.len(),
        byte_len(text.take(k)) <= limit,
        k < text.len() ==> byte_len(text.take(k + 1)) > limit,
    ensures
        byte_prefix(text, limit) == text.take(k),
    decreases text.len() - k,
{
    if k == text.len() {
        assert(text.take(k) == text);
    } else {
        lemma_byte_len_monotone(text, k + 1);
        let shorter = text.drop_last();
        assert(shorter.take(k) == text.take(k));
        if k < shorter.len() {
            assert(shorter.take(k + 1) == text.take(k + 1));
        }
        lemma_byte_prefix_at(shorter, k, limit);
    }
}

/// The longest prefix of the text that takes at most `limit` bytes and ends
/// between two characters.
pub fn truncate_bytes(text: String, limit: usize) -> (result: String)
    ensures
        result@ == byte_prefix(text@, limit as nat),
        byte_len(result@) <= limit,
{
    let chars = chars_of(text.as_str());
    let mut used: usize = 0;
    let mut end: usize = 0;
    assert(chars@.take(0) == Seq::<char>::empty());
    assert(encode_utf8(Seq::<char>::empty()).len() == 0);
    while end < chars.len()
        invariant
            end <= chars@.len(),
            used <= limit,
            used == byte_len(chars@.take(end as int)),
            chars@ == text@,
        decreases chars@.len() - end,
    {
        let width: usize = utf8_width(chars[end]);
        proof {
            assert(chars@.take(end + 1) == chars@.take(end as int).push(chars@[end as int]));
            lemma_byte_len_push(chars@.take(end as int), chars@[end as int]);
        }
        if width > limit - used {
            proof {
                lemma_byte_prefix_at(chars@, end as int, limit as nat);
                assert(chars@.subrange(0, end as int) == chars@.take(end as int));
            }
            return text_of(&chars, 0, end);
        }
        used += width;
        end += 1;
    }
    assert(chars@.take(end as int) == text@);
    text
}

/// A text that fits is kept whole.
pub proof fn byte_prefix_keeps_what_fits(text: Seq<char>, limit: nat)
    requires
        byte_len(text) <= limit,
    ensures
        byte_prefix(text, limit) == text,
{
}

// ── Letters ────────────────────────────────────────────────────────────────

/// A character with an ASCII capital made small.
pub open spec fn ascii_lower(c: char) -> char {
    if 'A' <= c <= 'Z' {
        ((c as u8) + 32) as char
    } else {
        c
    }
}

/// A text with its ASCII capitals made small.
pub open spec fn ascii_lowercase_of(text: Seq<char>) -> Seq<char> {
    text.map_values(|c: char| ascii_lower(c))
}

/// A character with an ASCII capital made small.
pub fn lower_ascii(c: char) -> (lower: char)
    ensures
        lower == ascii_lower(c),
{
    if 'A' <= c && c <= 'Z' {
        let code: u8 = (c as u8) + 32;
        code as char
    } else {
        c
    }
}

/// The text with its ASCII capitals made small.
pub fn ascii_lowercase(text: &str) -> (lower: String)
    ensures
        lower@ == ascii_lowercase_of(text@),
{
    let chars = chars_of(text);
    let mut lower = String::new();
    let mut i: usize = 0;
    while i < chars.len()
        invariant
            i <= chars@.len(),
            lower@ == ascii_lowercase_of(chars@.take(i as int)),
        decreases chars@.len() - i,
    {
        lower.push(lower_ascii(chars[i]));
        assert(lower@ =~= ascii_lowercase_of(chars@.take(i + 1)));
        i += 1;
    }
    assert(chars@.take(i as int) =~= chars@);
    lower
}

/// A copy of several texts.
pub fn copy_texts(texts: &Vec<String>) -> (copy: Vec<String>)
    ensures
        copy@ == texts@,
{
    let mut copy: Vec<String> = Vec::new();
    let mut i: usize = 0;
    while i < texts.len()
        invariant
            i <= texts@.len(),
            copy@ == texts@.take(i as int),
        decreases texts@.len() - i,
    {
        copy.push(texts[i].clone());
        assert(texts@.take(i + 1) =~= texts@.take(i as int).push(texts@[i as int]));
        i += 1;
    }
    assert(texts@.take(i as int) =~= texts@);
    copy
}

/// The characters that `char::to_uppercase` yields for `c`.
pub uninterp spec fn uppercase(c: char) -> Seq<char>;

/// The characters that `char::to_lowercase` yields for `c`.
pub uninterp spec fn lowercase(c: char) -> Seq<char>;

/// `char::to_uppercase` depends on the character alone. A small ASCII letter
/// becomes its capital, and any other ASCII character stays as it is.
#[verifier::external_body]
pub(crate) fn upper_text(c: char) -> (upper: String)
    ensures
        upper@ == uppercase(c),
        (c as u32) < 0x80 ==> upper@ == seq![
            if 'a' <= c <= 'z' {
                ((c as u8) - 32) as char
            } else {
                c
            },
        ],
{
    c.to_uppercase().to_string()
}

/// `char::to_lowercase` depends on the character alone. An ASCII capital
/// becomes its small letter, and any other ASCII character stays as it is.
#[verifier::external_body]
pub(crate) fn lower_text(c: char) -> (lower: String)
    ensures
        lower@ == lowercase(c),
        (c as u32) < 0x80 ==> lower@ == seq![ascii_lower(c)],
{
    c.to_lowercase().to_string()
}

/// Whether the text holds whitespace anywhere.
pub fn has_whitespace(text: &str) -> (found: bool)
    ensures
        found == exists|i: int| 0 <= i < text@.len() && is_whitespace(#[trigger] text@[i]),
{
    let chars = chars_of(text);
    let mut i: usize = 0;
    while i < chars.len()
        invariant
            i <= chars@.len(),
            chars@ == text@,
            forall|k: int| 0 <= k < i ==> !is_whitespace(#[trigger] chars@[k]),
        decreases chars@.len() - i,
    {
        if chars[i].is_whitespace() {
            return true;
        }
        i += 1;
    }
    false
}

/// The text without its trailing whitespace.
pub fn trim_trailing(text: &str) -> (result: String)
    ensures
        result@ == trim_end(text@),
{
    let chars = chars_of(text);
    let mut to: usize = chars.len();
    while to > 0 && chars[to - 1].is_whitespace()
        invariant
            to <= chars@.len(),
            forall|i: int| to <= i < chars@.len() ==> is_whitespace(#[trigger] chars@[i]),
        decreases to,
    {
        to -= 1;
    }
    proof {
        lemma_trim_end_at(chars@, to as int);
        assert(chars@.subrange(0, to as int) =~= chars@.take(to as int));
    }
    text_of(&chars, 0, to)
}

/// One text behind another.
pub fn prefixed(prefix: &str, rest: &str) -> (text: String)
    ensures
        text@ == prefix@ + rest@,
{
    let mut text = owned(prefix);
    text.append(rest);
    text
}

/// What `str::to_lowercase` makes of a text.
pub uninterp spec fn lowered(text: Seq<char>) -> Seq<char>;

/// `str::to_lowercase` depends on the text alone. It turns the capitals of an
/// ASCII text into small letters and leaves the rest of it as it is.
#[verifier::external_body]
pub(crate) fn lower_case(text: &str) -> (lower: String)
    ensures
        lower@ == lowered(text@),
        (forall|i: int| 0 <= i < text@.len() ==> (#[trigger] text@[i] as u32) < 0x80)
            ==> lower@ == ascii_lowercase_of(text@),
{
    text.to_lowercase()
}

/// Whether a text occurs in another at a place.
pub open spec fn occurs_at(text: Seq<char>, part: Seq<char>, at: int) -> bool {
    0 <= at && at + part.len() <= text.len() && text.subrange(at, at + part.len()) == part
}

/// Whether a text occurs in another.
pub open spec fn occurs_in(text: Seq<char>, part: Seq<char>) -> bool {
    exists|at: int| #[trigger] occurs_at(text, part, at)
}

fn matches_at(chars: &Vec<char>, part: &Vec<char>, at: usize) -> (found: bool)
    requires
        at + part@.len() <= chars@.len(),
    ensures
        found == occurs_at(chars@, part@, at as int),
{
    let count: usize = chars.len();
    let mut i: usize = 0;
    while i < part.len()
        invariant
            i <= part@.len(),
            count == chars@.len(),
            at + part@.len() <= count,
            forall|k: int| 0 <= k < i ==> chars@[at + k] == #[trigger] part@[k],
        decreases part@.len() - i,
    {
        if chars[at + i] != part[i] {
            assert(chars@.subrange(at as int, at + part@.len())[i as int] != part@[i as int]);
            return false;
        }
        i += 1;
    }
    assert(chars@.subrange(at as int, at + part@.len()) =~= part@);
    true
}

/// Whether a text occurs in another.
pub fn contains_text(text: &str, part: &str) -> (found: bool)
    ensures
        found == occurs_in(text@, part@),
{
    let chars = chars_of(text);
    let wanted = chars_of(part);
    if wanted.len() > chars.len() {
        assert(forall|at: int| !#[trigger] occurs_at(text@, part@, at));
        return false;
    }
    let last: usize = chars.len() - wanted.len();
    let mut at: usize = 0;
    while at < last
        invariant
            at <= last,
            last == chars@.len() - wanted@.len(),
            wanted@.len() <= chars@.len(),
            chars@ == text@,
            wanted@ == part@,
            forall|k: int| 0 <= k < at ==> !#[trigger] occurs_at(text@, part@, k),
        decreases last - at,
    {
        if matches_at(&chars, &wanted, at) {
            assert(occurs_at(text@, part@, at as int));
            return true;
        }
        at += 1;
    }
    let found = matches_at(&chars, &wanted, at);
    assert(found == occurs_at(text@, part@, at as int));
    found
}

/// The number that decimal digits stand for.
pub open spec fn digits_value(digits: Seq<char>) -> nat
    decreases digits.len(),
{
    if digits.len() == 0 {
        0
    } else {
        10 * digits_value(digits.drop_last()) + (digits.last() as nat - '0' as nat) as nat
    }
}

/// Whether a text is made of decimal digits.
pub open spec fn all_digits(text: Seq<char>) -> bool {
    forall|i: int| 0 <= i < text.len() ==> '0' <= #[trigger] text[i] <= '9'
}

/// The number that a text stands for: decimal digits, after a plus sign or
/// not, of a value up to a limit.
pub open spec fn number_within(text: Seq<char>, limit: nat) -> Option<nat> {
    let digits = if text.len() > 0 && text[0] == '+' {
        text.skip(1)
    } else {
        text
    };
    if digits.len() > 0 && all_digits(digits) && digits_value(digits) <= limit {
        Some(digits_value(digits))
    } else {
        None
    }
}

proof fn lemma_digits_grow(digits: Seq<char>, n: int)
    requires
        all_digits(digits),
        0 <= n <= digits.len(),
    ensures
        digits_value(digits.take(n)) <= digits_value(digits),
    decreases digits.len(),
{
    if n < digits.len() {
        assert(all_digits(digits.drop_last())) by {
            assert forall|i: int| 0 <= i < digits.len() - 1 implies '0'
                <= #[trigger] digits.drop_last()[i] <= '9' by {
                assert(digits.drop_last()[i] == digits[i]);
            }
        }
        lemma_digits_grow(digits.drop_last(), n);
        assert(digits.drop_last().take(n) =~= digits.take(n));
    } else {
        assert(digits.take(n) =~= digits);
    }
}

/// The number that a text stands for, where it is not above a limit.
pub fn parse_number(text: &str, limit: u32) -> (number: Option<u32>)
    ensures
        match number {
            Some(number) => number_within(text@, limit as nat) == Some(number as nat),
            None => number_within(text@, limit as nat) is None,
        },
{
    let chars = chars_of(text);
    let count: usize = chars.len();
    let signed: bool = count > 0 && chars[0] == '+';
    let start: usize = if signed {
        1
    } else {
        0
    };
    let ghost digits = if signed {
        text@.skip(1)
    } else {
        text@
    };
    assert(digits =~= chars@.skip(start as int));
    if start == count {
        return None;
    }
    let mut value: u64 = 0;
    let mut i: usize = start;
    assert(digits.take(0) =~= Seq::<char>::empty());
    while i < count
        invariant
            start <= i <= count,
            count == chars@.len(),
            digits == chars@.skip(start as int),
            number_within(text@, limit as nat) == (if digits.len() > 0 && all_digits(digits)
                && digits_value(digits) <= limit {
                Some(digits_value(digits))
            } else {
                None
            }),
            all_digits(digits.take(i - start)),
            value == digits_value(digits.take(i - start)),
            value <= limit,
        decreases count - i,
    {
        let c: char = chars[i];
        let ghost here = digits.take(i - start);
        let ghost next = digits.take(i + 1 - start);
        assert(digits[i - start] == c);
        assert(next.drop_last() =~= here);
        assert(next.last() == c);
        if c < '0' || c > '9' {
            assert(!all_digits(digits));
            return None;
        }
        assert(all_digits(next)) by {
            assert forall|k: int| 0 <= k < next.len() implies '0' <= #[trigger] next[k] <= '9' by {
                if k < here.len() {
                    assert(next[k] == here[k]);
                }
            }
        }
        value = value * 10 + (c as u64 - '0' as u64);
        if value > limit as u64 {
            proof {
                if all_digits(digits) {
                    lemma_digits_grow(digits, i + 1 - start);
                }
            }
            return None;
        }
        i += 1;
    }
    assert(digits.take(i - start) =~= digits);
    Some(value as u32)
}

} // verus!
