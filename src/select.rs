//! Choosing one command among the matches of a search, by its 1-based number.

use vstd::prelude::*;
use crate::search::{matches_of, search_logic, strings_view};
use crate::store::{CommandStore, remove_entry};
use crate::text::{chars_of, parse_usize, parsed_usize, trim_chars, trim_ws, words};

verus! {

/// The outcome of choosing among the matches of a search.
#[derive(Debug, PartialEq, Eq)]
pub enum Selection {
    /// There was no match to choose from.
    NothingToSelect,
    /// The answer did not name a match; nothing is done.
    NoSelection,
    /// The chosen command text.
    Selected(String),
}

/// The 0-based position that the answer `input` names among `count` matches:
/// the trimmed answer must parse as a number from 1 to `count`.
pub open spec fn choice_of(count: int, input: Seq<char>) -> Option<int> {
    match parsed_usize(trim_ws(input)) {
        Some(n) => if 1 <= n && n <= count {
            Some(n - 1)
        } else {
            None
        },
        None => None,
    }
}

/// What the answer `input` selects among the matches `m`.
pub open spec fn selection_of(m: Seq<Seq<char>>, input: Seq<char>) -> Option<Seq<char>> {
    match choice_of(m.len() as int, input) {
        Some(i) => Some(m[i]),
        None => None,
    }
}

/// `r` is the selection among `m` that the answer `input` makes.
pub open spec fn selects(r: Selection, m: Seq<Seq<char>>, input: Seq<char>) -> bool {
    if m.len() == 0 {
        r is NothingToSelect
    } else {
        match selection_of(m, input) {
            Some(c) => r is Selected && r->Selected_0@ == c,
            None => r is NoSelection,
        }
    }
}

/// Chooses among `matches` by the answer `input`, a 1-based number.
pub fn select(matches: &Vec<String>, input: &str) -> (r: Selection)
    ensures
        selects(r, strings_view(matches@), input@),
{
    if matches.len() == 0 {
        return Selection::NothingToSelect;
    }
    let answer = trim_chars(&chars_of(input));
    match parse_usize(&answer) {
        Some(n) => {
            if 1 <= n && n <= matches.len() {
                let c = matches[n - 1].clone();
                assert(strings_view(matches@)[n - 1] == matches@[n - 1]@);
                Selection::Selected(c)
            } else {
                Selection::NoSelection
            }
        },
        None => Selection::NoSelection,
    }
}

/// Searches `store` for `pattern` and deletes the match that the answer
/// `input` chooses; any other answer leaves the store as it was.
pub fn delete_command(store: &mut CommandStore, pattern: String, input: &str) -> (r: Selection)
    ensures
        selects(r, matches_of(words(pattern@), old(store)@), input@),
        match r {
            Selection::Selected(c) => final(store)@ == remove_entry(old(store)@, c@),
            _ => final(store)@ == old(store)@,
        },
{
    let matches = search_logic(pattern, store);
    let r = select(&matches, input);
    match &r {
        Selection::Selected(c) => {
            store.remove(c);
        },
        _ => {},
    }
    r
}

/// Searches `store` for `pattern` and gives the match that the answer
/// `input` chooses to be executed.
pub fn command_to_execute(store: &CommandStore, pattern: String, input: &str) -> (r: Selection)
    ensures
        selects(r, matches_of(words(pattern@), store@), input@),
{
    let matches = search_logic(pattern, store);
    select(&matches, input)
}

} // verus!
