//! The entries of an atlas, kept as a map from name to entry: in strictly
//! increasing order of the names, as a map ordered by its keys holds them.

use vstd::prelude::*;
use crate::text::{chars_less, lemma_chars_less_irreflexive, lemma_chars_less_total, lemma_chars_less_transitive, str_less};
use crate::types::{AtlasEntry, Pos, Size};

verus! {

/// Whether the names of `entries` strictly increase.
pub open spec fn keys_sorted(entries: Seq<(String, AtlasEntry)>) -> bool {
    forall|i: int, j: int| 0 <= i < j < entries.len() ==> chars_less(#[trigger] entries[i].0@, #[trigger] entries[j].0@)
}

/// Whether one of `entries` is named `key`.
pub open spec fn has_key(entries: Seq<(String, AtlasEntry)>, key: Seq<char>) -> bool {
    exists|i: int| 0 <= i < entries.len() && #[trigger] entries[i].0@ == key
}

/// Where an entry named `key` goes in `entries`: before the first entry whose
/// name does not come before `key`.
pub open spec fn insert_index(entries: Seq<(String, AtlasEntry)>, key: Seq<char>) -> int
    decreases entries.len(),
{
    if entries.len() == 0 || !chars_less(entries[0].0@, key) {
        0
    } else {
        1 + insert_index(entries.drop_first(), key)
    }
}

/// The names before `insert_index` come before `key`, and the one at it
/// (if any) does not.
pub proof fn lemma_insert_index(entries: Seq<(String, AtlasEntry)>, key: Seq<char>)
    ensures
        0 <= insert_index(entries, key) <= entries.len(),
        forall|i: int| 0 <= i < insert_index(entries, key) ==> chars_less(#[trigger] entries[i].0@, key),
        insert_index(entries, key) < entries.len() ==> !chars_less(entries[insert_index(entries, key)].0@, key),
    decreases entries.len(),
{
    if entries.len() > 0 && chars_less(entries[0].0@, key) {
        lemma_insert_index(entries.drop_first(), key);
        assert forall|i: int| 0 <= i < insert_index(entries, key) implies chars_less(#[trigger] entries[i].0@, key) by {
            if i > 0 {
                assert(entries[i] == entries.drop_first()[i - 1]);
            }
        }
    }
}

/// An entry as values: the name, the tile size, and the position of each
/// tile.
pub type EntryView = (Seq<char>, Size, Seq<(int, int)>);

/// The values of `entries`.
pub open spec fn entry_views(entries: Seq<(String, AtlasEntry)>) -> Seq<EntryView> {
    entries.map_values(
        |e: (String, AtlasEntry)| (e.0@, e.1.size, e.1.pos@.map_values(|p: Pos| (p.x as int, p.y as int))),
    )
}

/// Whether one of the entries `es` is named `key`.
pub open spec fn view_has_key(es: Seq<EntryView>, key: Seq<char>) -> bool {
    exists|i: int| 0 <= i < es.len() && #[trigger] es[i].0 == key
}

/// Where an entry named `key` goes in the entries `es`: before the first
/// whose name does not come before `key`.
pub open spec fn key_index(es: Seq<EntryView>, key: Seq<char>) -> int
    decreases es.len(),
{
    if es.len() == 0 || !chars_less(es[0].0, key) {
        0
    } else {
        1 + key_index(es.drop_first(), key)
    }
}

/// `has_key` and `insert_index` read the names only, as `view_has_key` and
/// `key_index` do on the values.
pub proof fn lemma_entry_views_keys(entries: Seq<(String, AtlasEntry)>, key: Seq<char>)
    ensures
        has_key(entries, key) == view_has_key(entry_views(entries), key),
        insert_index(entries, key) == key_index(entry_views(entries), key),
    decreases entries.len(),
{
    let es = entry_views(entries);
    if has_key(entries, key) {
        let i = choose|i: int| 0 <= i < entries.len() && #[trigger] entries[i].0@ == key;
        assert(es[i].0 == key);
    }
    if view_has_key(es, key) {
        let i = choose|i: int| 0 <= i < es.len() && #[trigger] es[i].0 == key;
        assert(entries[i].0@ == key);
    }
    if entries.len() > 0 {
        assert(entry_views(entries.drop_first()) =~= es.drop_first());
        lemma_entry_views_keys(entries.drop_first(), key);
    }
}

/// Adds `entry` under `key` at its place in the sorted `entries`, unless an
/// entry of that name is there already. Returns whether it was added.
pub fn insert_entry(entries: &mut Vec<(String, AtlasEntry)>, key: String, entry: AtlasEntry) -> (added: bool)
    requires
        keys_sorted(old(entries)@),
    ensures
        added == !has_key(old(entries)@, key@),
        keys_sorted(final(entries)@),
        added ==> final(entries)@ == old(entries)@.insert(insert_index(old(entries)@, key@), (key, entry)),
        !added ==> final(entries)@ == old(entries)@,
{
    let ghost old_entries = entries@;
    proof {
        lemma_insert_index(old_entries, key@);
    }
    let mut i: usize = 0;
    while i < entries.len() && str_less(entries[i].0.as_str(), key.as_str())
        invariant
            entries@ == old_entries,
            keys_sorted(old_entries),
            i <= entries@.len(),
            forall|j: int| 0 <= j < i ==> chars_less(#[trigger] old_entries[j].0@, key@),
            0 <= insert_index(old_entries, key@) <= old_entries.len(),
            forall|j: int| 0 <= j < insert_index(old_entries, key@) ==> chars_less(#[trigger] old_entries[j].0@, key@),
            insert_index(old_entries, key@) < old_entries.len() ==> !chars_less(old_entries[insert_index(old_entries, key@)].0@, key@),
            i <= insert_index(old_entries, key@),
        decreases entries@.len() - i,
    {
        i = i + 1;
    }
    proof {
        if i < insert_index(old_entries, key@) {
            assert(chars_less(old_entries[i as int].0@, key@));
        }
    }
    assert(i == insert_index(old_entries, key@));
    if i < entries.len() && entries[i].0 == key {
        assert(has_key(old_entries, key@));
        return false;
    }
    proof {
        // no entry has the key: those before `i` come before it, those from `i` on after it
        assert forall|j: int| 0 <= j < old_entries.len() implies #[trigger] old_entries[j].0@ != key@ by {
            if j < i {
                lemma_chars_less_irreflexive(key@);
            } else {
                if old_entries[i as int].0@ != key@ {
                    lemma_chars_less_total(old_entries[i as int].0@, key@);
                }
                if j > i {
                    if old_entries[j].0@ == key@ {
                        lemma_chars_less_irreflexive(key@);
                    }
                }
            }
        }
    }
    entries.insert(i, (key, entry));
    proof {
        let n = entries@;
        assert forall|a: int, b: int| 0 <= a < b < n.len() implies chars_less(#[trigger] n[a].0@, #[trigger] n[b].0@) by {
            if b == i {
                assert(n[a] == old_entries[a]);
            } else if a == i {
                assert(n[b] == old_entries[b - 1]);
                let k = old_entries[i as int].0@;
                if k != key@ {
                    lemma_chars_less_total(k, key@);
                }
                if b - 1 > i {
                    lemma_chars_less_transitive(key@, k, old_entries[b - 1].0@);
                }
            } else if b < i {
                assert(n[a] == old_entries[a] && n[b] == old_entries[b]);
            } else if a < i {
                assert(n[a] == old_entries[a] && n[b] == old_entries[b - 1]);
            } else {
                assert(n[a] == old_entries[a - 1] && n[b] == old_entries[b - 1]);
            }
        }
    }
    true
}

} // verus!
