//! The variable mapping built from a content file's front matter: string keys
//! to string values, unique keys, last write wins. Viewed in specifications as
//! a `Map<Seq<u8>, Seq<u8>>`.

use vstd::prelude::*;

verus! {

/// The mathematical content of a list of bindings: later entries override
/// earlier ones.
pub open spec fn map_of(entries: Seq<(Vec<u8>, Vec<u8>)>) -> Map<Seq<u8>, Seq<u8>>
    decreases entries.len(),
{
    if entries.len() == 0 {
        Map::empty()
    } else {
        map_of(entries.drop_last()).insert(entries.last().0@, entries.last().1@)
    }
}

/// Entries past position `i` that never hold the key `k` do not affect
/// whether and how `map_of` binds `k`.
proof fn lemma_map_of_skip(entries: Seq<(Vec<u8>, Vec<u8>)>, i: int, k: Seq<u8>)
    requires
        0 <= i <= entries.len(),
        forall|j: int| i <= j < entries.len() ==> entries[j].0@ != k,
    ensures
        map_of(entries).contains_key(k) == map_of(entries.subrange(0, i)).contains_key(k),
        map_of(entries).contains_key(k) ==> map_of(entries)[k] == map_of(entries.subrange(0, i))[k],
    decreases entries.len(),
{
    if i == entries.len() {
        assert(entries.subrange(0, i) =~= entries);
    } else {
        let d = entries.drop_last();
        assert(entries.last().0@ != k);
        lemma_map_of_skip(d, i, k);
        assert(d.subrange(0, i) =~= entries.subrange(0, i));
    }
}

/// A mapping from variable names to values, as parsed from a front-matter
/// header block.
pub struct Variables {
    entries: Vec<(Vec<u8>, Vec<u8>)>,
}

impl View for Variables {
    type V = Map<Seq<u8>, Seq<u8>>;

    closed spec fn view(&self) -> Map<Seq<u8>, Seq<u8>> {
        map_of(self.entries@)
    }
}

impl Variables {
    /// An empty mapping.
    pub fn new() -> (r: Variables)
        ensures
            r@ == Map::<Seq<u8>, Seq<u8>>::empty(),
    {
        Variables { entries: Vec::new() }
    }

    /// Binds `k` to `v`, replacing any earlier binding of `k`.
    pub fn insert(&mut self, k: Vec<u8>, v: Vec<u8>)
        ensures
            final(self)@ == old(self)@.insert(k@, v@),
    {
        let ghost gk = k@;
        let ghost gv = v@;
        self.entries.push((k, v));
        proof {
            assert(self.entries@.drop_last() =~= old(self).entries@);
            assert(self.entries@.last().0@ == gk);
            assert(self.entries@.last().1@ == gv);
        }
    }

    /// The value bound to `k`, if any.
    pub fn get(&self, k: &Vec<u8>) -> (r: Option<&Vec<u8>>)
        ensures
            match r {
                Some(v) => self@.contains_key(k@) && v@ == self@[k@],
                None => !self@.contains_key(k@),
            },
    {
        let mut j: usize = self.entries.len();
        while j > 0
            invariant
                0 <= j <= self.entries@.len(),
                forall|x: int| j <= x < self.entries@.len() ==> self.entries@[x].0@ != k@,
            decreases j,
        {
            if crate::text::bytes_eq(&self.entries[j - 1].0, k) {
                proof {
                    lemma_map_of_skip(self.entries@, j as int, k@);
                    let pre = self.entries@.subrange(0, j as int);
                    assert(pre.drop_last() =~= self.entries@.subrange(0, j - 1));
                    assert(pre.last().0@ == k@);
                    assert(map_of(pre).contains_key(k@));
                    assert(map_of(pre)[k@] == self.entries@[j - 1].1@);
                }
                return Some(&self.entries[j - 1].1);
            }
            j = j - 1;
        }
        proof {
            lemma_map_of_skip(self.entries@, 0, k@);
            assert(self.entries@.subrange(0, 0) =~= Seq::<(Vec<u8>, Vec<u8>)>::empty());
        }
        None
    }
}

} // verus!
