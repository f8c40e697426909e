//! The command store: command texts, each unique, with their descriptions.

use vstd::prelude::*;
use crate::error::KeepError;
use crate::text::{
    chars_of, lines, push_chars, push_str, split_at_delim, split_delim, split_lines, string_of,
    trim_chars, trim_ws, vecs_view,
};

verus! {

/// A command text and its description, as character sequences.
pub type EntryView = (Seq<char>, Seq<char>);

pub open spec fn entries_view(v: Seq<(String, String)>) -> Seq<EntryView> {
    v.map_values(|e: (String, String)| (e.0@, e.1@))
}

/// No two entries share a command text.
pub open spec fn keys_distinct(s: Seq<EntryView>) -> bool {
    forall|i: int, j: int|
        0 <= i < s.len() && 0 <= j < s.len() && i != j ==> #[trigger] s[i].0 != #[trigger] s[j].0
}

pub open spec fn has_key(s: Seq<EntryView>, k: Seq<char>) -> bool {
    exists|i: int| 0 <= i < s.len() && #[trigger] s[i].0 == k
}

/// The position of the entry for `k`, where there is one.
pub open spec fn key_index(s: Seq<EntryView>, k: Seq<char>) -> int {
    choose|i: int| 0 <= i < s.len() && #[trigger] s[i].0 == k
}

/// The description stored for `k`.
pub open spec fn description_of(s: Seq<EntryView>, k: Seq<char>) -> Option<Seq<char>> {
    if has_key(s, k) {
        Some(s[key_index(s, k)].1)
    } else {
        None
    }
}

/// `s` with `k` described as `d`: the entry for `k` is replaced in place, or
/// a new one is added at the end.
pub open spec fn insert_entry(s: Seq<EntryView>, k: Seq<char>, d: Seq<char>) -> Seq<EntryView> {
    if has_key(s, k) {
        s.update(key_index(s, k), (k, d))
    } else {
        s.push((k, d))
    }
}

/// `s` without the entry for `k`; the others keep their order.
pub open spec fn remove_entry(s: Seq<EntryView>, k: Seq<char>) -> Seq<EntryView> {
    if has_key(s, k) {
        s.remove(key_index(s, k))
    } else {
        s
    }
}

/// The bulk-editing text of `s`: one line `command:::description` per entry.
pub open spec fn edit_text_of(s: Seq<EntryView>) -> Seq<char>
    decreases s.len(),
{
    if s.len() == 0 {
        seq![]
    } else {
        edit_text_of(s.drop_last()) + s.last().0 + ":::"@ + s.last().1 + "\n"@
    }
}

/// The store that edited lines describe: each line with a `:::` gives the
/// trimmed text before it as a command and the trimmed text after it as its
/// description; a later line for the same command wins; other lines are dropped.
pub open spec fn edited_entries(ls: Seq<Seq<char>>) -> Seq<EntryView>
    decreases ls.len(),
{
    if ls.len() == 0 {
        seq![]
    } else {
        let prev = edited_entries(ls.drop_last());
        match split_delim(ls.last()) {
            Some(p) => insert_entry(prev, trim_ws(p.0), trim_ws(p.1)),
            None => prev,
        }
    }
}

pub proof fn lemma_key_index(s: Seq<EntryView>, i: int)
    requires
        keys_distinct(s),
        0 <= i < s.len(),
    ensures
        has_key(s, s[i].0),
        key_index(s, s[i].0) == i,
{
    let k = s[i].0;
    assert(has_key(s, k));
    let j = key_index(s, k);
    assert(s[j].0 == k);
}

pub proof fn lemma_insert_distinct(s: Seq<EntryView>, k: Seq<char>, d: Seq<char>)
    requires
        keys_distinct(s),
    ensures
        keys_distinct(insert_entry(s, k, d)),
        has_key(insert_entry(s, k, d), k),
{
    let t = insert_entry(s, k, d);
    if has_key(s, k) {
        let j = key_index(s, k);
        assert(t[j].0 == k);
    } else {
        assert(t[s.len() as int].0 == k);
    }
}

pub proof fn lemma_remove_distinct(s: Seq<EntryView>, k: Seq<char>)
    requires
        keys_distinct(s),
    ensures
        keys_distinct(remove_entry(s, k)),
        !has_key(remove_entry(s, k), k),
{
    if has_key(s, k) {
        let j = key_index(s, k);
        let t = s.remove(j);
        assert forall|a: int| 0 <= a < t.len() implies #[trigger] t[a] == if a < j {
            s[a]
        } else {
            s[a + 1]
        } by {}
        assert forall|a: int, b: int|
            0 <= a < t.len() && 0 <= b < t.len() && a != b implies #[trigger] t[a].0
            != #[trigger] t[b].0 by {
            let a1 = if a < j { a } else { a + 1 };
            let b1 = if b < j { b } else { b + 1 };
            assert(t[a] == s[a1]);
            assert(t[b] == s[b1]);
        }
        assert forall|a: int| 0 <= a < t.len() implies #[trigger] t[a].0 != k by {
            let a1 = if a < j { a } else { a + 1 };
            assert(t[a] == s[a1]);
        }
    }
}

/// Saving one command text twice, with two descriptions, leaves exactly one
/// entry for it, with the later description; the store grows by at most one.
pub proof fn lemma_insert_twice(s: Seq<EntryView>, k: Seq<char>, d1: Seq<char>, d2: Seq<char>)
    requires
        keys_distinct(s),
    ensures
        ({
            let t = insert_entry(insert_entry(s, k, d1), k, d2);
            &&& keys_distinct(t)
            &&& description_of(t, k) == Some(d2)
            &&& forall|i: int, j: int|
                0 <= i < t.len() && 0 <= j < t.len() && #[trigger] t[i].0 == k && #[trigger] t[j].0
                    == k ==> i == j
            &&& t.len() == if has_key(s, k) {
                s.len()
            } else {
                s.len() + 1
            }
        }),
{
    let u = insert_entry(s, k, d1);
    lemma_insert_distinct(s, k, d1);
    lemma_insert_distinct(u, k, d2);
    let t = insert_entry(u, k, d2);
    let j = key_index(u, k);
    assert(t[j] == (k, d2));
    lemma_key_index(t, j);
}

/// Saved commands with their descriptions, in an order of their own.
pub struct CommandStore {
    commands: Vec<(String, String)>,
}

impl View for CommandStore {
    type V = Seq<EntryView>;

    closed spec fn view(&self) -> Seq<EntryView> {
        entries_view(self.commands@)
    }
}

impl CommandStore {
    #[verifier::type_invariant]
    spec fn inv(self) -> bool {
        keys_distinct(entries_view(self.commands@))
    }

    /// The empty store.
    pub fn new() -> (r: CommandStore)
        ensures
            r@ == Seq::<EntryView>::empty(),
    {
        let r = CommandStore { commands: Vec::new() };
        assert(r@ =~= Seq::<EntryView>::empty());
        r
    }

    /// The store holding `commands`, whose command texts are distinct.
    pub(crate) fn from_distinct(commands: Vec<(String, String)>) -> (r: CommandStore)
        requires
            keys_distinct(entries_view(commands@)),
        ensures
            r@ == entries_view(commands@),
    {
        CommandStore { commands }
    }

    /// The entries of the store, in its order.
    pub fn entries(&self) -> (r: &Vec<(String, String)>)
        ensures
            entries_view(r@) == self@,
            keys_distinct(self@),
    {
        proof {
            use_type_invariant(self);
        }
        &self.commands
    }

    /// The number of saved commands.
    pub fn len(&self) -> (r: usize)
        ensures
            r == self@.len(),
    {
        self.commands.len()
    }

    /// Whether no command is saved.
    pub fn is_empty(&self) -> (r: bool)
        ensures
            r == (self@.len() == 0),
    {
        self.commands.len() == 0
    }

    fn find(&self, command: &String) -> (r: Option<usize>)
        ensures
            match r {
                Some(i) => i < self@.len() && self@[i as int].0 == command@ && has_key(self@, command@)
                    && key_index(self@, command@) == i,
                None => !has_key(self@, command@),
            },
    {
        proof {
            use_type_invariant(self);
        }
        let mut i: usize = 0;
        while i < self.commands.len()
            invariant
                i <= self.commands.len(),
                self@ == entries_view(self.commands@),
                keys_distinct(self@),
                forall|j: int| 0 <= j < i ==> #[trigger] self@[j].0 != command@,
            decreases self.commands.len() - i,
        {
            if self.commands[i].0 == *command {
                proof {
                    lemma_key_index(self@, i as int);
                }
                return Some(i);
            }
            i += 1;
        }
        None
    }

    /// The description saved for `command`.
    pub fn get(&self, command: &String) -> (r: Option<&String>)
        ensures
            match r {
                Some(d) => description_of(self@, command@) == Some(d@),
                None => description_of(self@, command@) is None,
            },
    {
        match self.find(command) {
            Some(i) => Some(&self.commands[i].1),
            None => None,
        }
    }

    /// Saves `command` with `description`, replacing the description it had.
    pub fn insert(&mut self, command: String, description: String)
        ensures
            final(self)@ == insert_entry(old(self)@, command@, description@),
    {
        proof {
            use_type_invariant(&*self);
            lemma_insert_distinct(self@, command@, description@);
        }
        let ghost k = command@;
        let ghost d = description@;
        let found = self.find(&command);
        let mut v: Vec<(String, String)> = Vec::new();
        std::mem::swap(&mut self.commands, &mut v);
        match found {
            Some(i) => {
                v.set(i, (command, description));
            },
            None => {
                v.push((command, description));
            },
        }
        assert(entries_view(v@) =~= insert_entry(old(self)@, k, d));
        std::mem::swap(&mut self.commands, &mut v);
    }

    /// Removes the entry for `command`; says whether there was one.
    pub fn remove(&mut self, command: &String) -> (r: bool)
        ensures
            r == has_key(old(self)@, command@),
            final(self)@ == remove_entry(old(self)@, command@),
    {
        proof {
            use_type_invariant(&*self);
            lemma_remove_distinct(self@, command@);
        }
        match self.find(command) {
            Some(i) => {
                let mut v: Vec<(String, String)> = Vec::new();
                std::mem::swap(&mut self.commands, &mut v);
                v.remove(i);
                assert(entries_view(v@) =~= remove_entry(old(self)@, command@));
                std::mem::swap(&mut self.commands, &mut v);
                true
            },
            None => false,
        }
    }

    /// The text handed to an editor for bulk editing: one line
    /// `command:::description` per entry, in the store's order.
    pub fn edit_text(&self) -> (r: String)
        ensures
            r@ == edit_text_of(self@),
    {
        let mut out: Vec<char> = Vec::new();
        let mut i: usize = 0;
        while i < self.commands.len()
            invariant
                i <= self.commands.len(),
                self@ == entries_view(self.commands@),
                out@ == edit_text_of(self@.take(i as int)),
            decreases self.commands.len() - i,
        {
            assert(self@.take(i as int + 1).drop_last() =~= self@.take(i as int));
            let e = &self.commands[i];
            let c = chars_of(e.0.as_str());
            push_chars(&mut out, &c);
            push_str(&mut out, ":::");
            let d = chars_of(e.1.as_str());
            push_chars(&mut out, &d);
            push_str(&mut out, "\n");
            i += 1;
        }
        assert(self@.take(self.commands.len() as int) =~= self@);
        string_of(&out)
    }

    /// The store that an edited text describes (see `edited_entries`); it
    /// replaces the whole store.
    pub fn from_edited(text: &str) -> (r: CommandStore)
        ensures
            r@ == edited_entries(lines(text@)),
    {
        let chars = chars_of(text);
        let ls = split_lines(&chars);
        let mut store = CommandStore::new();
        let mut i: usize = 0;
        while i < ls.len()
            invariant
                i <= ls.len(),
                vecs_view(ls@) == lines(text@),
                store@ == edited_entries(vecs_view(ls@).take(i as int)),
            decreases ls.len() - i,
        {
            let ghost prev = vecs_view(ls@).take(i as int);
            assert(vecs_view(ls@).take(i as int + 1).drop_last() =~= prev);
            assert(vecs_view(ls@)[i as int] == ls@[i as int]@);
            match split_at_delim(&ls[i]) {
                Some(p) => {
                    let c = trim_chars(&p.0);
                    let d = trim_chars(&p.1);
                    store.insert(string_of(&c), string_of(&d));
                },
                None => {},
            }
            i += 1;
        }
        assert(vecs_view(ls@).take(ls.len() as int) =~= vecs_view(ls@));
        store
    }
}

/// Saves a new command. The empty command text is refused and leaves the
/// store as it was.
pub fn new_command(store: &mut CommandStore, command: String, description: String) -> (r:
    Result<(), KeepError>)
    ensures
        command@.len() == 0 ==> r == Err::<(), KeepError>(KeepError::EmptyCommandText)
            && final(store)@ == old(store)@,
        command@.len() > 0 ==> r is Ok
            && final(store)@ == insert_entry(old(store)@, command@, description@),
{
    let c = chars_of(command.as_str());
    if c.len() == 0 {
        return Err(KeepError::EmptyCommandText);
    }
    store.insert(command, description);
    Ok(())
}

} // verus!
