//! The template store: a memoizing cache from template names to the outcome
//! of reading them, so that a missing template is noted once and a present
//! one is read once per build. The store itself never touches the
//! filesystem: the caller reads a file on a cache miss and stores the
//! outcome, present or absent.

use vstd::prelude::*;
use crate::text::bytes_eq;

verus! {

/// One remembered lookup outcome: the template's text, or the fact that it
/// could not be read.
pub enum TemplateEntry {
    /// The template file's text.
    Found(Vec<u8>),
    /// The template could not be read.
    Absent,
}

impl View for TemplateEntry {
    type V = Option<Seq<u8>>;

    open spec fn view(&self) -> Option<Seq<u8>> {
        match self {
            TemplateEntry::Found(text) => Some(text@),
            TemplateEntry::Absent => None,
        }
    }
}

/// The mathematical content of the cache's entry list: later entries
/// override earlier ones.
pub open spec fn cache_map_of(entries: Seq<(Vec<u8>, TemplateEntry)>) -> Map<
    Seq<u8>,
    Option<Seq<u8>>,
>
    decreases entries.len(),
{
    if entries.len() == 0 {
        Map::empty()
    } else {
        cache_map_of(entries.drop_last()).insert(entries.last().0@, entries.last().1@)
    }
}

proof fn lemma_cache_map_of_skip(entries: Seq<(Vec<u8>, TemplateEntry)>, i: int, k: Seq<u8>)
    requires
        0 <= i <= entries.len(),
        forall|j: int| i <= j < entries.len() ==> entries[j].0@ != k,
    ensures
        cache_map_of(entries).contains_key(k) == cache_map_of(
            entries.subrange(0, i),
        ).contains_key(k),
        cache_map_of(entries).contains_key(k) ==> cache_map_of(entries)[k] == cache_map_of(
            entries.subrange(0, i),
        )[k],
    decreases entries.len(),
{
    if i == entries.len() {
        assert(entries.subrange(0, i) =~= entries);
    } else {
        let d = entries.drop_last();
        assert(entries.last().0@ != k);
        lemma_cache_map_of_skip(d, i, k);
        assert(d.subrange(0, i) =~= entries.subrange(0, i));
    }
}

/// A memoizing store of templates, viewed as a map from template name to the
/// remembered outcome of reading it.
pub struct FileReader {
    cache: Vec<(Vec<u8>, TemplateEntry)>,
}

impl View for FileReader {
    type V = Map<Seq<u8>, Option<Seq<u8>>>;

    closed spec fn view(&self) -> Map<Seq<u8>, Option<Seq<u8>>> {
        cache_map_of(self.cache@)
    }
}

impl FileReader {
    /// An empty store.
    pub fn new() -> (r: FileReader)
        ensures
            r@ == Map::<Seq<u8>, Option<Seq<u8>>>::empty(),
    {
        FileReader { cache: Vec::new() }
    }

    /// Remembers the outcome of reading the template `name`, replacing any
    /// earlier outcome remembered for it.
    pub fn store(&mut self, name: Vec<u8>, entry: TemplateEntry)
        ensures
            final(self)@ == old(self)@.insert(name@, entry@),
    {
        let ghost gn = name@;
        let ghost ge = entry@;
        self.cache.push((name, entry));
        proof {
            assert(self.cache@.drop_last() =~= old(self).cache@);
            assert(self.cache@.last().0@ == gn);
            assert(self.cache@.last().1@ == ge);
        }
    }

    /// The remembered outcome for `name`: `None` when `name` was never
    /// stored, otherwise the stored outcome — the template's text, or the
    /// remembered absence.
    pub fn lookup(&self, name: &Vec<u8>) -> (r: Option<&TemplateEntry>)
        ensures
            match r {
                Some(entry) => self@.contains_key(name@) && entry@ == self@[name@],
                None => !self@.contains_key(name@),
            },
    {
        let mut j: usize = self.cache.len();
        while j > 0
            invariant
                0 <= j <= self.cache@.len(),
                forall|x: int| j <= x < self.cache@.len() ==> self.cache@[x].0@ != name@,
            decreases j,
        {
            if bytes_eq(&self.cache[j - 1].0, name) {
                proof {
                    lemma_cache_map_of_skip(self.cache@, j as int, name@);
                    let pre = self.cache@.subrange(0, j as int);
                    assert(pre.drop_last() =~= self.cache@.subrange(0, j - 1));
                    assert(pre.last().0@ == name@);
                    assert(cache_map_of(pre).contains_key(name@));
                    assert(cache_map_of(pre)[name@] == self.cache@[j - 1].1@);
                }
                return Some(&self.cache[j - 1].1);
            }
            j = j - 1;
        }
        proof {
            lemma_cache_map_of_skip(self.cache@, 0, name@);
            assert(self.cache@.subrange(0, 0) =~= Seq::<(Vec<u8>, TemplateEntry)>::empty());
        }
        None
    }
}

} // verus!
