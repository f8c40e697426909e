//! The stored file: a JSON object whose `commands` member maps each command
//! text to its description.

use vstd::prelude::*;
use crate::error::KeepError;
use crate::store::{CommandStore, EntryView, entries_view, keys_distinct};
use crate::text::{chars_of, push_chars, push_str, string_of};

verus! {

/// `serde_json::Error`, the error of a failed parse: carried, never looked into.
#[verifier::external_type_specification]
#[verifier::external_body]
pub struct ExJsonError(serde_json::Error);

/// What `serde_json::to_string` writes for a string: a JSON string literal.
pub uninterp spec fn json_string_of(s: Seq<char>) -> Seq<char>;

/// Relies on `serde_json::to_string` on a `str`: the JSON string literal for
/// `s`. It writes into memory and cannot fail on a `str`.
#[verifier::external_body]
fn quote_json(s: &Vec<char>) -> (r: Vec<char>)
    ensures
        r@ == json_string_of(s@),
{
    match serde_json::to_string(&s.iter().collect::<String>()) {
        Ok(t) => t.chars().collect(),
        Err(_) => Vec::new(),
    }
}

/// What `serde_json::from_str` makes of a text as an object of objects of
/// strings, each object's members in order of their keys; `None` where it
/// fails.
pub uninterp spec fn json_sections_of(s: Seq<char>) -> Option<
    Seq<(Seq<char>, Seq<(Seq<char>, Seq<char>)>)>,
>;

pub open spec fn sections_view(v: Seq<(String, Vec<(String, String)>)>) -> Seq<
    (Seq<char>, Seq<EntryView>),
> {
    v.map_values(|x: (String, Vec<(String, String)>)| (x.0@, entries_view(x.1@)))
}

/// Relies on `serde_json::from_str` into a `BTreeMap` of `BTreeMap`s of
/// strings: a JSON object whose members are objects of strings parses, and
/// anything else is an error. A `BTreeMap` holds each key once.
#[verifier::external_body]
fn parse_sections(text: &str) -> (r: Result<Vec<(String, Vec<(String, String)>)>, serde_json::Error>)
    ensures
        match r {
            Ok(v) => json_sections_of(text@) == Some(sections_view(v@)) && forall|i: int|
                0 <= i < v@.len() ==> keys_distinct(entries_view((#[trigger] v@[i]).1@)),
            Err(_) => json_sections_of(text@) is None,
        },
{
    serde_json::from_str::<
        std::collections::BTreeMap<String, std::collections::BTreeMap<String, String>>,
    >(text).map(|m| m.into_iter().map(|(k, v)| (k, v.into_iter().collect())).collect())
}

/// One member of the `commands` object, on a line of its own.
pub open spec fn entry_line(e: EntryView) -> Seq<char> {
    "    "@ + json_string_of(e.0) + ": "@ + json_string_of(e.1)
}

/// The members of the `commands` object, separated by `,` and a line break.
pub open spec fn entry_lines(s: Seq<EntryView>) -> Seq<char>
    decreases s.len(),
{
    if s.len() == 0 {
        seq![]
    } else if s.len() == 1 {
        entry_line(s[0])
    } else {
        entry_lines(s.drop_last()) + ",\n"@ + entry_line(s.last())
    }
}

/// The text of the stored file for the entries `s`, pretty-printed.
pub open spec fn file_text_of(s: Seq<EntryView>) -> Seq<char> {
    if s.len() == 0 {
        "{\n  \"commands\": {}\n}"@
    } else {
        "{\n  \"commands\": {\n"@ + entry_lines(s) + "\n  }\n}"@
    }
}

/// The entries of the first section named `k`.
pub open spec fn section_named(secs: Seq<(Seq<char>, Seq<EntryView>)>, k: Seq<char>) -> Option<
    Seq<EntryView>,
>
    decreases secs.len(),
{
    if secs.len() == 0 {
        None
    } else if secs[0].0 == k {
        Some(secs[0].1)
    } else {
        section_named(secs.drop_first(), k)
    }
}

/// The entries that the file text `text` holds, or why it holds none.
pub open spec fn loaded(text: Seq<char>) -> Result<Seq<EntryView>, KeepError> {
    match json_sections_of(text) {
        Some(secs) => match section_named(secs, "commands"@) {
            Some(e) => Ok(e),
            None => Err(KeepError::StoreCorrupt),
        },
        None => Err(KeepError::StoreCorrupt),
    }
}

/// Saving the same store twice writes the same text, so the two files load
/// to equal stores.
pub proof fn lemma_save_twice(a: Seq<EntryView>, b: Seq<EntryView>)
    requires
        a == b,
    ensures
        file_text_of(a) == file_text_of(b),
        loaded(file_text_of(a)) == loaded(file_text_of(b)),
{
}

impl CommandStore {
    /// The store that a file holds, given its text, or `None` where there is
    /// no file: an absent file is the empty store; a text that is not a JSON
    /// object of objects of strings with a `commands` member is corrupt.
    pub fn load(contents: Option<&str>) -> (r: Result<CommandStore, KeepError>)
        ensures
            match contents {
                None => r is Ok && r->Ok_0@ == Seq::<EntryView>::empty(),
                Some(t) => match loaded(t@) {
                    Ok(e) => r is Ok && r->Ok_0@ == e,
                    Err(k) => r is Err && r->Err_0 == k,
                },
            },
    {
        let text = match contents {
            None => {
                return Ok(CommandStore::new());
            },
            Some(t) => t,
        };
        let mut sections = match parse_sections(text) {
            Ok(v) => v,
            Err(_) => {
                return Err(KeepError::StoreCorrupt);
            },
        };
        let ghost secs = sections_view(sections@);
        let key = string_of(&chars_of("commands"));
        let mut i: usize = 0;
        assert(secs.skip(0) =~= secs);
        while i < sections.len()
            invariant
                i <= sections.len(),
                key@ == "commands"@,
                contents == Some(text),
                secs == sections_view(sections@),
                json_sections_of(text@) == Some(secs),
                forall|j: int|
                    0 <= j < sections@.len() ==> keys_distinct(
                        entries_view((#[trigger] sections@[j]).1@),
                    ),
                section_named(secs, key@) == section_named(secs.skip(i as int), key@),
            decreases sections.len() - i,
        {
            assert(secs.skip(i as int)[0] == secs[i as int]);
            if sections[i].0 == key {
                let ghost before = sections@;
                let found = sections.remove(i);
                assert(found == before[i as int]);
                return Ok(CommandStore::from_distinct(found.1));
            }
            assert(secs.skip(i as int).drop_first() =~= secs.skip(i as int + 1));
            i += 1;
        }
        Err(KeepError::StoreCorrupt)
    }

    /// The text of the stored file for this store: a pretty-printed JSON
    /// object whose `commands` member maps each command text to its
    /// description, in the store's order.
    pub fn save(&self) -> (r: String)
        ensures
            r@ == file_text_of(self@),
    {
        let entries = self.entries();
        let mut out: Vec<char> = Vec::new();
        if entries.len() == 0 {
            push_str(&mut out, "{\n  \"commands\": {}\n}");
            return string_of(&out);
        }
        push_str(&mut out, "{\n  \"commands\": {\n");
        let ghost head = out@;
        let mut i: usize = 0;
        while i < entries.len()
            invariant
                i <= entries.len(),
                entries_view(entries@) == self@,
                head == "{\n  \"commands\": {\n"@,
                out@ == head + entry_lines(self@.take(i as int)),
            decreases entries.len() - i,
        {
            let ghost prev = out@;
            assert(self@.take(i as int + 1).drop_last() =~= self@.take(i as int));
            assert(self@.take(i as int + 1).last() == self@[i as int]);
            if i > 0 {
                push_str(&mut out, ",\n");
            }
            push_str(&mut out, "    ");
            push_chars(&mut out, &quote_json(&chars_of(entries[i].0.as_str())));
            push_str(&mut out, ": ");
            push_chars(&mut out, &quote_json(&chars_of(entries[i].1.as_str())));
            if i == 0 {
                assert(self@.take(1)[0] == self@[0]);
                assert(out@ =~= head + entry_lines(self@.take(1)));
            } else {
                assert(out@ =~= head + entry_lines(self@.take(i as int + 1)));
            }
            i += 1;
        }
        assert(self@.take(entries.len() as int) =~= self@);
        push_str(&mut out, "\n  }\n}");
        assert(out@ =~= file_text_of(self@));
        string_of(&out)
    }
}

} // verus!
