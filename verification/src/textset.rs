//! A set of texts.
use crate::text;
use vstd::prelude::*;

verus! {

#[derive(Debug)]
pub struct TextSet {
    items: Vec<String>,
}

impl View for TextSet {
    type V = Set<Seq<char>>;

    closed spec fn view(&self) -> Set<Seq<char>> {
        text::texts(self.items@).to_set()
    }
}

impl TextSet {
    pub fn new() -> (set: Self)
        ensures
            set@ == Set::<Seq<char>>::empty(),
    {
        let set = TextSet { items: Vec::new() };
        assert(set@ =~= Set::<Seq<char>>::empty());
        set
    }

    pub fn contains(&self, item: &str) -> (r: bool)
        ensures
            r == self@.contains(item@),
    {
        text::list_contains(&self.items, item)
    }

    pub fn is_empty(&self) -> (r: bool)
        ensures
            r == (self@ == Set::<Seq<char>>::empty()),
    {
        proof {
            if self.items@.len() == 0 {
                assert(self@ =~= Set::<Seq<char>>::empty());
            } else {
                assert(text::texts(self.items@).contains(text::texts(self.items@)[0]));
                assert(self@.contains(self.items@[0]@));
            }
        }
        self.items.len() == 0
    }

    pub fn insert(&mut self, item: &str)
        ensures
            final(self)@ == old(self)@.insert(item@),
    {
        if self.contains(item) {
            assert(self@ =~= self@.insert(item@));
            return ;
        }
        self.items.push(item.to_string());
        proof {
            let before = text::texts(old(self).items@);
            let after = text::texts(self.items@);
            assert(after =~= before.push(item@));
            assert forall|x: Seq<char>| after.contains(x) == (before.contains(x) || x == item@) by {
                if before.contains(x) {
                    let k = choose|k: int| 0 <= k < before.len() && before[k] == x;
                    assert(after[k] == x);
                }
                if x == item@ {
                    assert(after[before.len() as int] == x);
                }
            }
            assert(self@ =~= old(self)@.insert(item@));
        }
    }

    pub fn remove(&mut self, item: &str)
        ensures
            final(self)@ == old(self)@.remove(item@),
    {
        let ghost before = text::texts(self.items@);
        let mut kept: Vec<String> = Vec::new();
        for i in 0..self.items.len()
            invariant
                self.items@ == old(self).items@,
                before == text::texts(self.items@),
                forall|x: Seq<char>|
                    #[trigger] text::texts(kept@).contains(x) == (x != item@ && before.take(
                        i as int,
                    ).contains(x)),
        {
            let ghost held = text::texts(kept@);
            let ghost word = self.items@[i as int]@;
            assert(before[i as int] == word);
            if !text::same_text(self.items[i].as_str(), item) {
                kept.push(self.items[i].clone());
                assert(text::texts(kept@) =~= held.push(word));
            }
            proof {
                assert forall|x: Seq<char>|
                    #[trigger] text::texts(kept@).contains(x) == (x != item@ && before.take(
                        i + 1,
                    ).contains(x)) by {
                    assert(before.take(i + 1) =~= before.take(i as int).push(word));
                    lemma_push_contains(before.take(i as int), word, x);
                    lemma_push_contains(held, word, x);
                    assert(held.contains(x) == (x != item@ && before.take(i as int).contains(x)));
                }
            }
        }
        assert(before.take(before.len() as int) =~= before);
        self.items = kept;
        assert(self@ =~= old(self)@.remove(item@));
    }
}

proof fn lemma_push_contains(list: Seq<Seq<char>>, item: Seq<char>, x: Seq<char>)
    ensures
        list.push(item).contains(x) == (list.contains(x) || x == item),
{
    if list.contains(x) {
        let k = choose|k: int| 0 <= k < list.len() && list[k] == x;
        assert(list.push(item)[k] == x);
    }
    if x == item {
        assert(list.push(item)[list.len() as int] == x);
    }
}

} // verus!
