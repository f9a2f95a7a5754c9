//! A small insertion-ordered map from header names to header values,
//! with last-write-wins insertion, used for both request and response
//! headers.

use vstd::prelude::*;

verus! {

/// Does `s` hold an entry with key `k`?
pub open spec fn has_key(s: Seq<(Seq<u8>, Seq<u8>)>, k: Seq<u8>) -> bool {
    exists|i: int| 0 <= i < s.len() && s[i].0 == k
}

/// Index of the first entry with key `k` (meaningful only when `has_key`).
pub open spec fn key_index(s: Seq<(Seq<u8>, Seq<u8>)>, k: Seq<u8>) -> int
    decreases s.len(),
{
    if s.len() == 0 {
        0
    } else if s[0].0 == k {
        0
    } else {
        1 + key_index(s.drop_first(), k)
    }
}

/// The entries read as a map, later entries winning over earlier ones.
pub open spec fn seq_to_map(s: Seq<(Seq<u8>, Seq<u8>)>) -> Map<Seq<u8>, Seq<u8>>
    decreases s.len(),
{
    if s.len() == 0 {
        Map::empty()
    } else {
        seq_to_map(s.drop_last()).insert(s.last().0, s.last().1)
    }
}

/// If nothing before `i` has key `k` and `s[i]` does, then `i` is the first
/// index with that key.
pub proof fn lemma_key_index_first(s: Seq<(Seq<u8>, Seq<u8>)>, k: Seq<u8>, i: int)
    requires
        0 <= i < s.len(),
        s[i].0 == k,
        forall|j: int| 0 <= j < i ==> s[j].0 != k,
    ensures
        key_index(s, k) == i,
        has_key(s, k),
    decreases s.len(),
{
    if i > 0 {
        lemma_key_index_first(s.drop_first(), k, i - 1);
    }
}

/// The first entry with key `k` gives that key's value in the map view,
/// provided keys are unique.
pub proof fn lemma_seq_to_map_at(s: Seq<(Seq<u8>, Seq<u8>)>, i: int)
    requires
        0 <= i < s.len(),
        forall|p: int, q: int| 0 <= p < q < s.len() ==> s[p].0 != s[q].0,
    ensures
        seq_to_map(s).contains_key(s[i].0),
        seq_to_map(s)[s[i].0] == s[i].1,
    decreases s.len(),
{
    if i < s.len() - 1 {
        lemma_seq_to_map_at(s.drop_last(), i);
    }
}

/// Every key of the map view comes from some entry.
pub proof fn lemma_seq_to_map_key(s: Seq<(Seq<u8>, Seq<u8>)>, k: Seq<u8>)
    requires
        seq_to_map(s).contains_key(k),
    ensures
        has_key(s, k),
    decreases s.len(),
{
    if s.len() > 0 && s.last().0 != k {
        lemma_seq_to_map_key(s.drop_last(), k);
        let i = choose|i: int| 0 <= i < s.drop_last().len() && s.drop_last()[i].0 == k;
        assert(s[i].0 == k);
    }
}

/// A key is in the map view exactly when some entry holds it.
pub proof fn lemma_has_key_contains(s: Seq<(Seq<u8>, Seq<u8>)>, k: Seq<u8>)
    ensures
        has_key(s, k) <==> seq_to_map(s).contains_key(k),
    decreases s.len(),
{
    if seq_to_map(s).contains_key(k) {
        lemma_seq_to_map_key(s, k);
    }
    if has_key(s, k) && s.len() > 0 && s.last().0 != k {
        let i = choose|i: int| 0 <= i < s.len() && s[i].0 == k;
        assert(s.drop_last()[i] == s[i]);
        lemma_has_key_contains(s.drop_last(), k);
    }
}

/// An insertion-ordered header map; keys are byte strings and are kept
/// unique, and inserting an existing key overwrites its value in place.
#[derive(Debug)]
pub struct Headers {
    pub entries: Vec<(Vec<u8>, Vec<u8>)>,
}

impl Headers {
    /// The entries as a sequence of key/value byte strings.
    pub open spec fn entries_seq(&self) -> Seq<(Seq<u8>, Seq<u8>)> {
        self.entries@.map_values(|e: (Vec<u8>, Vec<u8>)| (e.0@, e.1@))
    }

    /// Well-formed: no key occurs twice.
    pub open spec fn wf(&self) -> bool {
        forall|p: int, q: int|
            0 <= p < q < self.entries_seq().len() ==> self.entries_seq()[p].0
                != self.entries_seq()[q].0
    }

    /// The headers as a map from name to value.
    pub open spec fn as_map(&self) -> Map<Seq<u8>, Seq<u8>> {
        seq_to_map(self.entries_seq())
    }

    pub fn new() -> (r: Headers)
        ensures
            r.entries_seq() == Seq::<(Seq<u8>, Seq<u8>)>::empty(),
            r.wf(),
            r.as_map() == Map::<Seq<u8>, Seq<u8>>::empty(),
    {
        let r = Headers { entries: Vec::new() };
        assert(r.entries_seq() =~= Seq::<(Seq<u8>, Seq<u8>)>::empty());
        r
    }

    /// Insert a header, overwriting the value if the name is already present
    /// (the overwrite keeps the name's original position).
    pub fn insert(&mut self, key: Vec<u8>, value: Vec<u8>)
        requires
            old(self).wf(),
        ensures
            final(self).wf(),
            final(self).as_map() == old(self).as_map().insert(key@, value@),
            has_key(old(self).entries_seq(), key@) ==> final(self).entries_seq() == old(
                self,
            ).entries_seq().update(key_index(old(self).entries_seq(), key@), (key@, value@)),
            !has_key(old(self).entries_seq(), key@) ==> final(self).entries_seq() == old(
                self,
            ).entries_seq().push((key@, value@)),
    {
        let ghost s0 = self.entries_seq();
        let mut i: usize = 0;
        while i < self.entries.len()
            invariant
                *self == *old(self),
                self.wf(),
                s0 == self.entries_seq(),
                i <= self.entries.len(),
                forall|j: int| 0 <= j < i ==> s0[j].0 != key@,
            decreases self.entries.len() - i,
        {
            if crate::ascii::bytes_eq(self.entries[i].0.as_slice(), key.as_slice()) {
                proof {
                    lemma_key_index_first(s0, key@, i as int);
                }
                let ghost ki = key_index(s0, key@);
                self.entries[i] = (key, value);
                assert(self.entries_seq() =~= s0.update(i as int, (key@, value@)));
                proof {
                    lemma_update_map(s0, i as int, key@, value@);
                }
                return ;
            }
            i = i + 1;
        }
        self.entries.push((key, value));
        assert(self.entries_seq() =~= s0.push((key@, value@)));
        assert(!has_key(s0, key@));
        assert(self.entries_seq().drop_last() =~= s0);
    }

    /// Look a header up by exact name.
    pub fn get(&self, key: &[u8]) -> (r: Option<&Vec<u8>>)
        requires
            self.wf(),
        ensures
            r.is_some() == self.as_map().contains_key(key@),
            r.is_some() ==> r.unwrap()@ == self.as_map()[key@],
    {
        let mut i: usize = 0;
        let ghost s0 = self.entries_seq();
        while i < self.entries.len()
            invariant
                self.wf(),
                s0 == self.entries_seq(),
                i <= self.entries.len(),
                forall|j: int| 0 <= j < i ==> s0[j].0 != key@,
            decreases self.entries.len() - i,
        {
            if crate::ascii::bytes_eq(self.entries[i].0.as_slice(), key) {
                proof {
                    lemma_seq_to_map_at(s0, i as int);
                }
                return Some(&self.entries[i].1);
            }
            i = i + 1;
        }
        proof {
            if self.as_map().contains_key(key@) {
                lemma_seq_to_map_key(s0, key@);
            }
        }
        None
    }

    /// How many headers are present.
    pub fn len(&self) -> (r: usize)
        ensures
            r == self.entries_seq().len(),
    {
        self.entries.len()
    }
}

/// Overwriting the value of the first entry with key `k` updates the map
/// view at `k`, provided keys are unique.
proof fn lemma_update_map(s: Seq<(Seq<u8>, Seq<u8>)>, i: int, k: Seq<u8>, v: Seq<u8>)
    requires
        0 <= i < s.len(),
        s[i].0 == k,
        forall|p: int, q: int| 0 <= p < q < s.len() ==> s[p].0 != s[q].0,
    ensures
        seq_to_map(s.update(i, (k, v))) == seq_to_map(s).insert(k, v),
    decreases s.len(),
{
    let su = s.update(i, (k, v));
    if i == s.len() - 1 {
        assert(su.drop_last() =~= s.drop_last());
        assert(seq_to_map(su) =~= seq_to_map(s).insert(k, v));
    } else {
        lemma_update_map(s.drop_last(), i, k, v);
        assert(su.drop_last() =~= s.drop_last().update(i, (k, v)));
        assert(su.last() == s.last());
        assert(s.last().0 != k);
        assert(seq_to_map(su) =~= seq_to_map(s).insert(k, v));
    }
}

} // verus!
