//! Files under the keys by which a sender lists them, no key twice.
use crate::model;
use crate::model::{FileDto, OfferEntry};
use crate::order;
use crate::text;
use vstd::prelude::*;

verus! {

/// Files under their keys.
#[derive(Debug)]
pub struct FileMap {
    entries: Vec<OfferEntry>,
}

/// No two entries have the same key.
pub open spec fn has_distinct_keys(entries: Seq<model::EntryView>) -> bool {
    forall|i: int, j: int|
        0 <= i < j < entries.len() ==> (#[trigger] entries[i]).key != (#[trigger] entries[j]).key
}

/// The place of the first entry from `i` on with a key; the number of entries where there is none.
pub open spec fn key_place(entries: Seq<model::EntryView>, key: Seq<char>, i: int) -> int
    decreases entries.len() - i,
{
    if i < 0 || i >= entries.len() {
        entries.len() as int
    } else if entries[i].key == key {
        i
    } else {
        key_place(entries, key, i + 1)
    }
}

/// Entries with one more: in place of the one with the same key, or at the end.
pub open spec fn with_entry(entries: Seq<model::EntryView>, entry: model::EntryView) -> Seq<
    model::EntryView,
> {
    let place = key_place(entries, entry.key, 0);
    if place < entries.len() {
        entries.update(place, entry)
    } else {
        entries.push(entry)
    }
}

pub proof fn lemma_key_place(entries: Seq<model::EntryView>, key: Seq<char>, i: int)
    requires
        0 <= i <= entries.len(),
    ensures
        i <= key_place(entries, key, i) <= entries.len(),
        key_place(entries, key, i) < entries.len() ==> entries[key_place(entries, key, i)].key
            == key,
        forall|j: int| i <= j < key_place(entries, key, i) ==> (#[trigger] entries[j]).key != key,
    decreases entries.len() - i,
{
    if i < entries.len() && entries[i].key != key {
        lemma_key_place(entries, key, i + 1);
    }
}

/// One more entry keeps the keys distinct.
pub proof fn lemma_with_entry(entries: Seq<model::EntryView>, entry: model::EntryView)
    requires
        has_distinct_keys(entries),
    ensures
        has_distinct_keys(with_entry(entries, entry)),
{
    lemma_key_place(entries, entry.key, 0);
}

/// The file under a key, where there is one.
pub open spec fn file_at(entries: Seq<model::EntryView>, key: Seq<char>) -> Option<
    model::FileDtoView,
> {
    let place = key_place(entries, key, 0);
    if place < entries.len() {
        Some(entries[place].file)
    } else {
        None
    }
}

/// A key that is found at a place is found there from everywhere before it.
proof fn lemma_place_is_first(entries: Seq<model::EntryView>, key: Seq<char>, i: int, k: int)
    requires
        0 <= i <= k <= entries.len(),
        forall|j: int| i <= j < k ==> (#[trigger] entries[j]).key != key,
        k < entries.len() ==> entries[k].key == key,
    ensures
        key_place(entries, key, i) == k,
    decreases k - i,
{
    if i < k {
        assert(entries[i].key != key);
        lemma_place_is_first(entries, key, i + 1, k);
    }
}

/// What is put under a key is found under it, and what is under other keys stays there.
pub proof fn lemma_found_after_with(
    entries: Seq<model::EntryView>,
    entry: model::EntryView,
    key: Seq<char>,
)
    ensures
        file_at(with_entry(entries, entry), key) == (if key == entry.key {
            Some(entry.file)
        } else {
            file_at(entries, key)
        }),
{
    let after = with_entry(entries, entry);
    let place = key_place(entries, entry.key, 0);
    let k = key_place(entries, key, 0);
    lemma_key_place(entries, entry.key, 0);
    lemma_key_place(entries, key, 0);
    if key == entry.key {
        lemma_place_is_first(after, key, 0, place);
    } else if k < entries.len() {
        assert(after[k] == entries[k]);
        lemma_place_is_first(after, key, 0, k);
    } else {
        lemma_place_is_first(after, key, 0, after.len() as int);
    }
}

impl View for FileMap {
    type V = Seq<model::EntryView>;

    closed spec fn view(&self) -> Seq<model::EntryView> {
        order::views(self.entries@)
    }
}

impl FileMap {
    #[verifier::type_invariant]
    closed spec fn is_keyed(self) -> bool {
        has_distinct_keys(order::views(self.entries@))
    }

    pub fn new() -> (map: FileMap)
        ensures
            map@ == Seq::<model::EntryView>::empty(),
    {
        let map = FileMap { entries: Vec::new() };
        assert(map@ =~= Seq::<model::EntryView>::empty());
        map
    }

    /// The entries, in the order in which their keys came first.
    pub fn entries(&self) -> (entries: &Vec<OfferEntry>)
        ensures
            order::views(entries@) == self@,
            has_distinct_keys(self@),
    {
        proof {
            use_type_invariant(self);
        }
        &self.entries
    }

    /// The place of the entry with a key; the number of entries where there is none.
    pub fn find(&self, key: &str) -> (place: usize)
        ensures
            place == key_place(self@, key@, 0),
            place <= self@.len(),
    {
        let entries = &self.entries;
        let ghost list = order::views(entries@);
        let mut i: usize = 0;
        while i < entries.len()
            invariant
                list == order::views(entries@),
                list == self@,
                i <= entries@.len(),
                key_place(list, key@, 0) == key_place(list, key@, i as int),
            decreases entries@.len() - i,
        {
            assert(list[i as int] == entries@[i as int]@);
            if text::same_text(entries[i].key.as_str(), key) {
                return i;
            }
            i += 1;
        }
        i
    }

    /// The map with a file under a key, in place of the one that was there.
    pub fn with(self, key: String, file: FileDto) -> (map: FileMap)
        ensures
            map@ == with_entry(self@, (model::EntryView { key: key@, file: file@ })),
    {
        proof {
            use_type_invariant(&self);
            lemma_with_entry(self@, (model::EntryView { key: key@, file: file@ }));
        }
        let place = self.find(key.as_str());
        let ghost before = self@;
        let mut entries = self.entries;
        let entry = OfferEntry { key, file };
        if place < entries.len() {
            entries.set(place, entry);
            assert(order::views(entries@) =~= before.update(place as int, entry@));
        } else {
            entries.push(entry);
            assert(order::views(entries@) =~= before.push(entry@));
        }
        FileMap { entries }
    }
}

} // verus!
