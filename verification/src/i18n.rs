//! Localized texts: a catalog maps keys to templates, and a template names
//! the values it takes as `%{name}`.
use crate::text;
use vstd::prelude::*;

verus! {

/// One localized text under its key.
pub struct Entry {
    pub key: String,
    pub template: String,
}

/// The texts of one language.
pub struct Catalog {
    pub entries: Vec<Entry>,
}

/// A value that a template takes, under the name the template uses for it.
pub struct Argument {
    pub name: Seq<char>,
    pub value: Seq<char>,
}

impl View for Catalog {
    type V = Seq<(Seq<char>, Seq<char>)>;

    open spec fn view(&self) -> Seq<(Seq<char>, Seq<char>)> {
        self.entries@.map_values(|entry: Entry| (entry.key@, entry.template@))
    }
}

/// The template stored under `key`, from the first entry that has it; a key
/// that no entry has stands for itself.
pub open spec fn template_for(entries: Seq<(Seq<char>, Seq<char>)>, key: Seq<char>) -> Seq<char>
    decreases entries.len(),
{
    if entries.len() == 0 {
        key
    } else if entries[0].0 == key {
        entries[0].1
    } else {
        template_for(entries.skip(1), key)
    }
}

/// The value of the first argument called `name`.
pub open spec fn argument_value(arguments: Seq<Argument>, name: Seq<char>) -> Option<Seq<char>>
    decreases arguments.len(),
{
    if arguments.len() == 0 {
        None
    } else if arguments[0].name == name {
        Some(arguments[0].value)
    } else {
        argument_value(arguments.skip(1), name)
    }
}

/// Where the first `}` at or after `from` stands, or the length.
pub open spec fn closing_brace(template: Seq<char>, from: int) -> int
    decreases template.len() - from,
{
    if from < 0 || from >= template.len() {
        template.len() as int
    } else if template[from] == '}' {
        from
    } else {
        closing_brace(template, from + 1)
    }
}

/// The template from `at` on, with each `%{name}` that an argument answers
/// replaced by that argument's value and everything else as it stands.
pub open spec fn filled_from(template: Seq<char>, arguments: Seq<Argument>, at: int) -> Seq<char>
    decreases template.len() - at,
    when 0 <= at <= template.len()
    via filled_from_terminates
{
    if at >= template.len() {
        Seq::empty()
    } else if template[at] == '%' && at + 1 < template.len() && template[at + 1] == '{'
        && closing_brace(template, at + 2) < template.len() {
        let close = closing_brace(template, at + 2);
        let piece = match argument_value(arguments, template.subrange(at + 2, close)) {
            Some(value) => value,
            None => template.subrange(at, close + 1),
        };
        piece + filled_from(template, arguments, close + 1)
    } else {
        seq![template[at]] + filled_from(template, arguments, at + 1)
    }
}

#[via_fn]
proof fn filled_from_terminates(template: Seq<char>, arguments: Seq<Argument>, at: int) {
    if at + 2 <= template.len() {
        lemma_closing_brace(template, at + 2);
    }
}

/// A template with its arguments in place.
pub open spec fn filled(template: Seq<char>, arguments: Seq<Argument>) -> Seq<char> {
    filled_from(template, arguments, 0)
}

/// The localized text for `key` with its arguments in place.
pub open spec fn localized(
    entries: Seq<(Seq<char>, Seq<char>)>,
    key: Seq<char>,
    arguments: Seq<Argument>,
) -> Seq<char> {
    filled(template_for(entries, key), arguments)
}

/// One argument for a template.
pub open spec fn argument(name: Seq<char>, value: Seq<char>) -> Argument {
    Argument { name, value }
}

proof fn lemma_closing_brace(template: Seq<char>, from: int)
    requires
        0 <= from <= template.len(),
    ensures
        from <= closing_brace(template, from) <= template.len(),
    decreases template.len() - from,
{
    if from < template.len() && template[from] != '}' {
        lemma_closing_brace(template, from + 1);
    }
}

/// What the names and values of an argument list say.
pub open spec fn arguments_view(names: Seq<&str>, values: Seq<String>) -> Seq<Argument>
    recommends
        names.len() == values.len(),
{
    Seq::new(names.len(), |i: int| Argument { name: names[i]@, value: values[i]@ })
}

fn find_argument(names: &Vec<&str>, values: &Vec<String>, name: &str) -> (found: Option<usize>)
    requires
        names@.len() == values@.len(),
    ensures
        match found {
            Some(i) => i < values@.len() && argument_value(
                arguments_view(names@, values@),
                name@,
            ) == Some(values@[i as int]@),
            None => argument_value(arguments_view(names@, values@), name@) is None,
        },
{
    let ghost all = arguments_view(names@, values@);
    let mut i: usize = 0;
    assert(all.skip(0) == all);
    while i < names.len()
        invariant
            i <= names@.len(),
            names@.len() == values@.len(),
            all == arguments_view(names@, values@),
            argument_value(all, name@) == argument_value(all.skip(i as int), name@),
        decreases names@.len() - i,
    {
        assert(all.skip(i as int)[0] == all[i as int]);
        assert(all.skip(i as int).skip(1) == all.skip(i + 1));
        if text::same(names[i], name) {
            return Some(i);
        }
        i += 1;
    }
    assert(all.skip(i as int).len() == 0);
    None
}

fn fill(template: &str, names: &Vec<&str>, values: &Vec<String>) -> (text: String)
    requires
        names@.len() == values@.len(),
    ensures
        text@ == filled(template@, arguments_view(names@, values@)),
{
    let chars = text::chars_of(template);
    let ghost all = arguments_view(names@, values@);
    let mut text = String::new();
    let mut at: usize = 0;
    while at < chars.len()
        invariant
            at <= chars@.len(),
            chars@ == template@,
            names@.len() == values@.len(),
            all == arguments_view(names@, values@),
            text@ + filled_from(template@, all, at as int) == filled(template@, all),
        decreases chars@.len() - at,
    {
        let ghost before = text@;
        if chars[at] == '%' && at + 1 < chars.len() && chars[at + 1] == '{' {
            let mut close: usize = at + 2;
            while close < chars.len() && chars[close] != '}'
                invariant
                    at + 2 <= close <= chars@.len(),
                    closing_brace(chars@, at + 2) == closing_brace(chars@, close as int),
                decreases chars@.len() - close,
            {
                close += 1;
            }
            if close < chars.len() {
                let name = text::text_of(&chars, at + 2, close);
                match find_argument(names, values, name.as_str()) {
                    Some(i) => {
                        text.append(values[i].as_str());
                    },
                    None => {
                        let kept = text::text_of(&chars, at, close + 1);
                        text.append(kept.as_str());
                    },
                }
                proof {
                    let rest = filled_from(template@, all, close + 1);
                    let whole = filled_from(template@, all, at as int);
                    assert(before + whole == text@ + rest);
                }
                at = close + 1;
            } else {
                text.push(chars[at]);
                proof {
                    let rest = filled_from(template@, all, at + 1);
                    assert(before + (seq![chars@[at as int]] + rest) == text@ + rest);
                }
                at += 1;
            }
        } else {
            text.push(chars[at]);
            proof {
                let rest = filled_from(template@, all, at + 1);
                assert(before + (seq![chars@[at as int]] + rest) == text@ + rest);
            }
            at += 1;
        }
    }
    assert(filled_from(template@, all, at as int) == Seq::<char>::empty());
    assert(text@ + Seq::<char>::empty() == text@);
    text
}

impl Catalog {
    fn find(&self, key: &str) -> (found: Option<usize>)
        ensures
            match found {
                Some(i) => i < self.entries@.len() && template_for(self@, key@)
                    == self.entries@[i as int].template@,
                None => template_for(self@, key@) == key@,
            },
    {
        let mut i: usize = 0;
        assert(self@.skip(0) == self@);
        while i < self.entries.len()
            invariant
                i <= self.entries@.len(),
                template_for(self@, key@) == template_for(self@.skip(i as int), key@),
            decreases self.entries@.len() - i,
        {
            assert(self@.skip(i as int)[0] == self@[i as int]);
            assert(self@.skip(i as int).skip(1) == self@.skip(i + 1));
            if text::same(self.entries[i].key.as_str(), key) {
                return Some(i);
            }
            i += 1;
        }
        assert(self@.skip(i as int).len() == 0);
        None
    }

    /// The localized text for `key` with the named values in place.
    pub fn text_with_all(&self, key: &str, names: &Vec<&str>, values: &Vec<String>) -> (text: String)
        requires
            names@.len() == values@.len(),
        ensures
            text@ == localized(self@, key@, arguments_view(names@, values@)),
    {
        match self.find(key) {
            Some(i) => fill(self.entries[i].template.as_str(), names, values),
            None => fill(key, names, values),
        }
    }

    /// The localized text for `key`, which takes no value.
    pub fn text(&self, key: &str) -> (text: String)
        ensures
            text@ == localized(self@, key@, Seq::empty()),
    {
        let names: Vec<&str> = Vec::new();
        let values: Vec<String> = Vec::new();
        assert(arguments_view(names@, values@) == Seq::<Argument>::empty());
        self.text_with_all(key, &names, &values)
    }

    /// The localized text for `key` with one named value.
    pub fn text_with(&self, key: &str, name: &str, value: &str) -> (text: String)
        ensures
            text@ == localized(self@, key@, seq![argument(name@, value@)]),
    {
        let names: Vec<&str> = vec![name];
        let values: Vec<String> = vec![text::owned(value)];
        assert(arguments_view(names@, values@) == seq![argument(name@, value@)]);
        self.text_with_all(key, &names, &values)
    }

    /// The localized text for `key` with two named values.
    pub fn text_with_two(
        &self,
        key: &str,
        first_name: &str,
        first: &str,
        second_name: &str,
        second: &str,
    ) -> (text: String)
        ensures
            text@ == localized(
                self@,
                key@,
                seq![argument(first_name@, first@), argument(second_name@, second@)],
            ),
    {
        let names: Vec<&str> = vec![first_name, second_name];
        let values: Vec<String> = vec![text::owned(first), text::owned(second)];
        assert(arguments_view(names@, values@) == seq![
            argument(first_name@, first@),
            argument(second_name@, second@),
        ]);
        self.text_with_all(key, &names, &values)
    }

    /// The localized text for `key` with a count.
    pub fn text_with_count(&self, key: &str, count: u64) -> (text: String)
        ensures
            text@ == counted(self@, key@, count as nat),
    {
        let value = text::decimal(count);
        self.text_with(key, "count", value.as_str())
    }
}

/// The localized text for `key` with a count in decimal notation.
pub open spec fn counted(
    entries: Seq<(Seq<char>, Seq<char>)>,
    key: Seq<char>,
    count: nat,
) -> Seq<char> {
    localized(entries, key, seq![argument("count"@, text::decimal_digits(count))])
}

/// The localized text for `key`, which takes no value.
pub open spec fn plain(entries: Seq<(Seq<char>, Seq<char>)>, key: Seq<char>) -> Seq<char> {
    localized(entries, key, Seq::empty())
}

} // verus!
