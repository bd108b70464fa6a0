//! The configuration entries of the header: a map from key to value.

use vstd::prelude::*;
use crate::text::same_text;

verus! {

/// The map that a list of entries stands for: a later entry overwrites an
/// earlier one with the same key.
pub open spec fn entries_map(entries: Seq<(String, String)>) -> Map<Seq<char>, Seq<char>>
    decreases entries.len(),
{
    if entries.len() == 0 {
        Map::empty()
    } else {
        entries_map(entries.drop_last()).insert(entries.last().0@, entries.last().1@)
    }
}

/// Entries whose key is not `key` do not matter to what `key` maps to.
proof fn lemma_entries_map_skip(entries: Seq<(String, String)>, key: Seq<char>, i: int)
    requires
        0 <= i <= entries.len(),
        forall|j: int| i <= j < entries.len() ==> (#[trigger] entries[j]).0@ != key,
    ensures
        entries_map(entries).contains_key(key) == entries_map(entries.take(i)).contains_key(key),
        entries_map(entries).contains_key(key) ==> entries_map(entries)[key] == entries_map(
            entries.take(i),
        )[key],
    decreases entries.len() - i,
{
    if i == entries.len() {
        assert(entries.take(i) =~= entries);
    } else {
        let rest = entries.drop_last();
        assert(entries[entries.len() - 1].0@ != key);
        assert forall|j: int| i <= j < rest.len() implies (#[trigger] rest[j]).0@ != key by {
            assert(rest[j] == entries[j]);
        }
        lemma_entries_map_skip(rest, key, i);
        assert(rest.take(i) =~= entries.take(i));
    }
}

/// Configuration entries by key.
#[derive(Debug)]
pub struct Options {
    entries: Vec<(String, String)>,
}

impl View for Options {
    type V = Map<Seq<char>, Seq<char>>;

    closed spec fn view(&self) -> Map<Seq<char>, Seq<char>> {
        entries_map(self.entries@)
    }
}

impl Options {
    /// No entries.
    pub fn new() -> (r: Options)
        ensures
            r@ == Map::<Seq<char>, Seq<char>>::empty(),
    {
        Options { entries: Vec::new() }
    }

    /// Sets `key` to `value`, overwriting what it was set to before.
    pub fn insert(&mut self, key: String, value: String)
        ensures
            final(self)@ == old(self)@.insert(key@, value@),
    {
        let ghost before = self.entries@;
        self.entries.push((key, value));
        assert(self.entries@.drop_last() =~= before);
    }

    /// The value that `key` is set to, if it is set.
    pub fn get(&self, key: &str) -> (r: Option<&str>)
        ensures
            match r {
                Some(value) => self@.contains_key(key@) && self@[key@] == value@,
                None => !self@.contains_key(key@),
            },
    {
        let mut i: usize = self.entries.len();
        while i > 0
            invariant
                i <= self.entries@.len(),
                forall|j: int| i <= j < self.entries@.len() ==> (#[trigger] self.entries@[j]).0@ != key@,
            decreases i,
        {
            if same_text(self.entries[i - 1].0.as_str(), key) {
                proof {
                    lemma_entries_map_skip(self.entries@, key@, i as int);
                    assert(self.entries@.take(i as int).drop_last() =~= self.entries@.take(i - 1));
                }
                return Some(self.entries[i - 1].1.as_str());
            }
            i -= 1;
        }
        proof {
            lemma_entries_map_skip(self.entries@, key@, 0);
            assert(self.entries@.take(0) =~= Seq::empty());
        }
        None
    }
}

} // verus!
