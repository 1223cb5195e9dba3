//! Process-wide, content-addressed caches for the compilation pipeline.
//!
//! Both built-in transforms memoize external work by the text of the code
//! block alone — never by its location — so identical snippets across
//! different files and projects share one entry, and an edit that reverts
//! to previously-seen text instantly reuses cached work. The cache only
//! grows; no eviction policy is specified upstream.

use vstd::prelude::*;

verus! {

/// A content-addressed cache: a growing map from the exact text of a code
/// block to the result derived from it (captured interpreter output, or the
/// path of a rendered image).
#[derive(Debug)]
pub struct ContentCache {
    entries: Vec<(String, String)>,
}

/// The map an entry list stands for, later entries taking precedence.
pub open spec fn entries_map(s: Seq<(String, String)>) -> Map<Seq<char>, Seq<char>>
    decreases s.len(),
{
    if s.len() == 0 {
        Map::empty()
    } else {
        entries_map(s.drop_last()).insert(s.last().0@, s.last().1@)
    }
}

impl ContentCache {
    /// The mathematical contents of the cache.
    pub closed spec fn contents(self) -> Map<Seq<char>, Seq<char>> {
        entries_map(self.entries@)
    }

    /// Keys are stored at most once, so a linear scan finds the entry the
    /// map holds.
    #[verifier::type_invariant]
    spec fn wf(self) -> bool {
        forall|i: int, j: int|
            0 <= i < j < self.entries@.len() ==> self.entries@[i].0@ != self.entries@[j].0@
    }

    /// An empty cache.
    pub fn new() -> (r: ContentCache)
        ensures
            r.contents() == Map::<Seq<char>, Seq<char>>::empty(),
    {
        ContentCache { entries: Vec::new() }
    }

    /// Whether a result for exactly this text is cached.
    pub fn contains(&self, key: &String) -> (r: bool)
        ensures
            r == self.contents().contains_key(key@),
    {
        proof {
            use_type_invariant(self);
        }
        let mut i: usize = 0;
        while i < self.entries.len()
            invariant
                self.wf(),
                i <= self.entries@.len(),
                forall|k: int| 0 <= k < i ==> self.entries@[k].0@ != key@,
            decreases self.entries@.len() - i,
        {
            if self.entries[i].0 == *key {
                proof {
                    lemma_entries_map_found(self.entries@, i as int);
                }
                return true;
            }
            i = i + 1;
        }
        proof {
            lemma_entries_map_absent(self.entries@, key@);
        }
        false
    }

    /// The cached result for exactly this text, if present.
    pub fn get(&self, key: &String) -> (r: Option<&String>)
        ensures
            match r {
                Some(v) => self.contents().contains_key(key@) && v@ == self.contents()[key@],
                None => !self.contents().contains_key(key@),
            },
    {
        proof {
            use_type_invariant(self);
        }
        let mut i: usize = 0;
        while i < self.entries.len()
            invariant
                self.wf(),
                i <= self.entries@.len(),
                forall|k: int| 0 <= k < i ==> self.entries@[k].0@ != key@,
            decreases self.entries@.len() - i,
        {
            if self.entries[i].0 == *key {
                proof {
                    lemma_entries_map_found(self.entries@, i as int);
                }
                return Some(&self.entries[i].1);
            }
            i = i + 1;
        }
        proof {
            lemma_entries_map_absent(self.entries@, key@);
        }
        None
    }

    /// Record the result derived from `key`. An existing entry for the same
    /// text is replaced, so the cache stays keyed by content alone.
    pub fn insert(&mut self, key: String, value: String)
        ensures
            final(self).contents() == old(self).contents().insert(key@, value@),
    {
        proof {
            use_type_invariant(&*self);
        }
        let ghost orig = self.entries@;
        let mut v: Vec<(String, String)> = Vec::new();
        std::mem::swap(&mut v, &mut self.entries);
        let mut i: usize = 0;
        while i < v.len()
            invariant
                v@ == orig,
                i <= orig.len(),
                entries_map(orig) == old(self).contents(),
                forall|a: int, b: int| 0 <= a < b < orig.len() ==> orig[a].0@ != orig[b].0@,
                forall|k: int| 0 <= k < i ==> orig[k].0@ != key@,
            decreases orig.len() - i,
        {
            if v[i].0 == key {
                v.set(i, (key, value));
                proof {
                    lemma_entries_map_update(orig, i as int, v@);
                }
                self.entries = v;
                return ;
            }
            i = i + 1;
        }
        v.push((key, value));
        proof {
            assert(v@.drop_last() =~= orig);
        }
        self.entries = v;
    }
}

/// If entry `i` holds `key` and no later entry repeats a key, the map holds
/// entry `i`'s value for `key`.
proof fn lemma_entries_map_found(s: Seq<(String, String)>, i: int)
    requires
        0 <= i < s.len(),
        forall|a: int, b: int| 0 <= a < b < s.len() ==> s[a].0@ != s[b].0@,
    ensures
        entries_map(s).contains_key(s[i].0@),
        entries_map(s)[s[i].0@] == s[i].1@,
    decreases s.len(),
{
    if i == s.len() - 1 {
    } else {
        assert(s.drop_last()[i] == s[i]);
        lemma_entries_map_found(s.drop_last(), i);
    }
}

/// A key no entry holds is not in the map.
proof fn lemma_entries_map_absent(s: Seq<(String, String)>, key: Seq<char>)
    requires
        forall|k: int| 0 <= k < s.len() ==> s[k].0@ != key,
    ensures
        !entries_map(s).contains_key(key),
    decreases s.len(),
{
    if s.len() > 0 {
        lemma_entries_map_absent(s.drop_last(), key);
    }
}

/// Replacing the single entry that holds a key updates the map at that key
/// alone.
proof fn lemma_entries_map_update(s: Seq<(String, String)>, i: int, t: Seq<(String, String)>)
    requires
        0 <= i < s.len(),
        forall|a: int, b: int| 0 <= a < b < s.len() ==> s[a].0@ != s[b].0@,
        t.len() == s.len(),
        forall|k: int| 0 <= k < s.len() && k != i ==> t[k] == s[k],
        t[i].0@ == s[i].0@,
    ensures
        entries_map(t) == entries_map(s).insert(t[i].0@, t[i].1@),
    decreases s.len(),
{
    if i == s.len() - 1 {
        assert(t.drop_last() =~= s.drop_last());
        assert(entries_map(t) =~= entries_map(s).insert(t[i].0@, t[i].1@));
    } else {
        assert(s.drop_last()[i] == s[i]);
        assert(forall|a: int, b: int|
            0 <= a < b < s.drop_last().len() ==> s.drop_last()[a].0@ != s.drop_last()[b].0@);
        assert(forall|k: int|
            0 <= k < s.drop_last().len() && k != i ==> t.drop_last()[k] == s.drop_last()[k]);
        lemma_entries_map_update(s.drop_last(), i, t.drop_last());
        assert(t.last() == s.last());
        assert(s[i].0@ != s.last().0@);
        assert(entries_map(t) =~= entries_map(s).insert(t[i].0@, t[i].1@));
    }
}

} // verus!
