//! Keyword search over the store: every word of the pattern must be a
//! case-insensitive part of the command text or of its description.

use vstd::prelude::*;
use crate::store::{CommandStore, EntryView, entries_view, keys_distinct};
use crate::text::{
    chars_of, contains_chars, contains_seq, is_white_space, lower_of, lowercase, split_words,
    vecs_view, words, words_acc,
};

verus! {

/// The keyword `kw` is a case-insensitive part of the command text or of the
/// description of `e`.
pub open spec fn keyword_hits(kw: Seq<char>, e: EntryView) -> bool {
    contains_seq(lower_of(e.0), lower_of(kw)) || contains_seq(lower_of(e.1), lower_of(kw))
}

/// `e` matches the keywords `kws`: there is at least one, and each of them hits.
pub open spec fn entry_matches(kws: Seq<Seq<char>>, e: EntryView) -> bool {
    kws.len() > 0 && forall|j: int| 0 <= j < kws.len() ==> keyword_hits(#[trigger] kws[j], e)
}

/// The command texts of the entries of `s` that match `kws`, in the store's order.
pub open spec fn matches_of(kws: Seq<Seq<char>>, s: Seq<EntryView>) -> Seq<Seq<char>>
    decreases s.len(),
{
    if s.len() == 0 {
        seq![]
    } else {
        let prev = matches_of(kws, s.drop_last());
        if entry_matches(kws, s.last()) {
            prev.push(s.last().0)
        } else {
            prev
        }
    }
}

pub open spec fn strings_view(v: Seq<String>) -> Seq<Seq<char>> {
    v.map_values(|x: String| x@)
}

/// The commands of `store` that match every whitespace-separated word of
/// `pattern`, in the store's order. A pattern without words matches nothing.
pub fn search_logic(pattern: String, store: &CommandStore) -> (r: Vec<String>)
    ensures
        strings_view(r@) == matches_of(words(pattern@), store@),
{
    let p = chars_of(pattern.as_str());
    let kws = split_words(&p);
    let ghost kv = vecs_view(kws@);
    let mut lower_kws: Vec<Vec<char>> = Vec::new();
    let mut i: usize = 0;
    while i < kws.len()
        invariant
            i <= kws.len(),
            kv == vecs_view(kws@),
            lower_kws.len() == i,
            forall|j: int| 0 <= j < i ==> (#[trigger] lower_kws@[j])@ == lower_of(kv[j]),
        decreases kws.len() - i,
    {
        lower_kws.push(lowercase(&kws[i]));
        i += 1;
    }
    let entries = store.entries();
    let mut out: Vec<String> = Vec::new();
    let mut n: usize = 0;
    while n < entries.len()
        invariant
            n <= entries.len(),
            kv == words(pattern@),
            kv.len() == lower_kws.len(),
            forall|j: int| 0 <= j < kv.len() ==> (#[trigger] lower_kws@[j])@ == lower_of(kv[j]),
            entries_view(entries@) == store@,
            strings_view(out@) == matches_of(kv, store@.take(n as int)),
        decreases entries.len() - n,
    {
        let ghost e = store@[n as int];
        assert(store@.take(n as int + 1).drop_last() =~= store@.take(n as int));
        assert(store@.take(n as int + 1).last() == e);
        let lc = lowercase(&chars_of(entries[n].0.as_str()));
        let ld = lowercase(&chars_of(entries[n].1.as_str()));
        let mut all = lower_kws.len() > 0;
        let mut j: usize = 0;
        while j < lower_kws.len()
            invariant
                j <= lower_kws.len(),
                kv.len() == lower_kws.len(),
                forall|k: int| 0 <= k < kv.len() ==> (#[trigger] lower_kws@[k])@ == lower_of(kv[k]),
                lc@ == lower_of(e.0),
                ld@ == lower_of(e.1),
                all == (kv.len() > 0 && forall|k: int| 0 <= k < j ==> keyword_hits(#[trigger] kv[k], e)),
            decreases lower_kws.len() - j,
        {
            let hit = contains_chars(&lc, &lower_kws[j]) || contains_chars(&ld, &lower_kws[j]);
            assert(hit == keyword_hits(kv[j as int], e));
            if !hit {
                all = false;
            }
            j += 1;
        }
        if all {
            let c = entries[n].0.clone();
            out.push(c);
            assert(strings_view(out@) =~= matches_of(kv, store@.take(n as int)).push(e.0));
        }
        n += 1;
    }
    assert(store@.take(entries.len() as int) =~= store@);
    out
}

proof fn lemma_matches_contains(kws: Seq<Seq<char>>, s: Seq<EntryView>, k: Seq<char>)
    ensures
        matches_of(kws, s).contains(k) <==> exists|i: int|
            0 <= i < s.len() && (#[trigger] s[i]).0 == k && entry_matches(kws, s[i]),
    decreases s.len(),
{
    if s.len() > 0 {
        let t = s.drop_last();
        lemma_matches_contains(kws, t, k);
        if matches_of(kws, s).contains(k) {
            if matches_of(kws, t).contains(k) {
                let i = choose|i: int| 0 <= i < t.len() && (#[trigger] t[i]).0 == k && entry_matches(kws, t[i]);
                assert(s[i] == t[i]);
            } else {
                assert(s[s.len() - 1] == s.last());
            }
        }
        if exists|i: int| 0 <= i < s.len() && (#[trigger] s[i]).0 == k && entry_matches(kws, s[i]) {
            let i = choose|i: int| 0 <= i < s.len() && (#[trigger] s[i]).0 == k && entry_matches(kws, s[i]);
            if i < s.len() - 1 {
                assert(t[i] == s[i]);
                let m = matches_of(kws, t);
                let j = choose|j: int| 0 <= j < m.len() && m[j] == k;
                if entry_matches(kws, s.last()) {
                    assert(m.push(s.last().0)[j] == k);
                }
            } else {
                assert(matches_of(kws, s).last() == k);
            }
        }
    }
}

/// For a pattern with at least one word, an entry of a store is among its
/// matches exactly when each word of the pattern, lower-cased, is a part of
/// the lower-cased command text or of the lower-cased description.
pub proof fn lemma_match_iff_all_keywords(s: Seq<EntryView>, pattern: Seq<char>, i: int)
    requires
        keys_distinct(s),
        0 <= i < s.len(),
        words(pattern).len() > 0,
    ensures
        matches_of(words(pattern), s).contains(s[i].0) <==> forall|j: int|
            0 <= j < words(pattern).len() ==> keyword_hits(#[trigger] words(pattern)[j], s[i]),
{
    let kws = words(pattern);
    lemma_matches_contains(kws, s, s[i].0);
    if matches_of(kws, s).contains(s[i].0) {
        let a = choose|a: int| 0 <= a < s.len() && (#[trigger] s[a]).0 == s[i].0 && entry_matches(kws, s[a]);
        assert(a == i);
    }
}

proof fn lemma_blank_words(pattern: Seq<char>)
    requires
        forall|i: int| 0 <= i < pattern.len() ==> is_white_space(#[trigger] pattern[i]),
    ensures
        words_acc(pattern) == (Seq::<Seq<char>>::empty(), Seq::<char>::empty()),
    decreases pattern.len(),
{
    if pattern.len() > 0 {
        let t = pattern.drop_last();
        assert forall|i: int| 0 <= i < t.len() implies is_white_space(#[trigger] t[i]) by {
            assert(t[i] == pattern[i]);
        }
        lemma_blank_words(t);
        assert(is_white_space(pattern[pattern.len() - 1]));
    }
}

proof fn lemma_no_keywords(s: Seq<EntryView>)
    ensures
        matches_of(Seq::<Seq<char>>::empty(), s) == Seq::<Seq<char>>::empty(),
    decreases s.len(),
{
    if s.len() > 0 {
        lemma_no_keywords(s.drop_last());
    }
}

/// A pattern with no word in it (empty, or whitespace alone) matches no entry
/// of any store.
pub proof fn lemma_blank_pattern_matches_nothing(s: Seq<EntryView>, pattern: Seq<char>)
    requires
        forall|i: int| 0 <= i < pattern.len() ==> is_white_space(#[trigger] pattern[i]),
    ensures
        matches_of(words(pattern), s) == Seq::<Seq<char>>::empty(),
{
    lemma_blank_words(pattern);
    assert(words(pattern) =~= Seq::<Seq<char>>::empty());
    lemma_no_keywords(s);
}

} // verus!
