//! Path matching for route overrides and ignore entries: two mappings,
//! one keyed by exact file path, one keyed by directory prefix, with
//! the exact match taking precedence. Paths are byte strings compared
//! literally, with `/` as the separator.

use crate::ascii::{bytes_eq, rfind_byte, spec_rfind};
use vstd::prelude::*;
use vstd::slice::{slice_subrange, slice_to_vec};

verus! {

/// The parent of a byte path: everything before the last `/`; a path
/// without one has the empty parent, `/` and the empty path have none.
pub open spec fn spec_parent(p: Seq<u8>) -> Option<Seq<u8>> {
    if p.len() == 0 {
        None
    } else {
        let i = spec_rfind(p, 47);
        if i < 0 || i >= p.len() {
            Some(Seq::<u8>::empty())
        } else if i == 0 {
            if p.len() == 1 {
                None
            } else {
                Some(seq![47u8])
            }
        } else {
            Some(p.take(i))
        }
    }
}

/// The path itself followed by each of its parents, innermost first.
pub open spec fn spec_ancestors(p: Seq<u8>) -> Seq<Seq<u8>>
    decreases p.len(),
{
    seq![p] + match spec_parent(p) {
        None => Seq::<Seq<u8>>::empty(),
        Some(q) => spec_ancestors(q),
    }
}

/// The parent of a path is strictly shorter and a literal prefix.
pub proof fn lemma_parent_prefix(p: Seq<u8>)
    requires
        spec_parent(p) is Some,
    ensures
        spec_parent(p)->0.len() < p.len(),
        spec_parent(p)->0 == p.take(spec_parent(p)->0.len() as int),
{
    let i = spec_rfind(p, 47);
    crate::ascii::lemma_spec_rfind_range(p, 47);
    if 0 <= i < p.len() {
        if i == 0 {
            assert(p.take(1) =~= seq![p[0]]);
            assert(spec_parent(p)->0 =~= p.take(1));
        }
    } else {
        assert(spec_parent(p)->0 =~= p.take(0));
    }
}

/// Compute the parent of a path.
pub fn parent_of(p: &[u8]) -> (r: Option<Vec<u8>>)
    ensures
        r is Some <==> spec_parent(p@) is Some,
        r is Some ==> r->0@ == spec_parent(p@)->0,
{
    if p.len() == 0 {
        return None;
    }
    match rfind_byte(p, 47) {
        None => Some(Vec::new()),
        Some(i) => {
            if i == 0 {
                if p.len() == 1 {
                    None
                } else {
                    let r = slice_to_vec(slice_subrange(p, 0, 1));
                    assert(r@ =~= seq![47u8]);
                    Some(r)
                }
            } else {
                Some(slice_to_vec(slice_subrange(p, 0, i)))
            }
        },
    }
}

/// The last component of a byte path: everything after the last `/`,
/// or the whole path without one.
pub open spec fn spec_file_name(p: Seq<u8>) -> Seq<u8> {
    let i = spec_rfind(p, 47);
    if i < 0 || i >= p.len() {
        p
    } else {
        p.skip(i + 1)
    }
}

/// Extract the last component of a path.
pub fn file_name_of(p: &[u8]) -> (r: Vec<u8>)
    ensures
        r@ == spec_file_name(p@),
{
    match rfind_byte(p, 47) {
        None => slice_to_vec(p),
        Some(i) => {
            let n = p.len();
            assert(i < n);
            slice_to_vec(slice_subrange(p, i + 1, n))
        },
    }
}

/// Join a component under a base path: an absolute component replaces
/// the base, otherwise a `/` separates them unless the base already
/// ends with one or is empty.
pub open spec fn spec_join(a: Seq<u8>, b: Seq<u8>) -> Seq<u8> {
    if b.len() > 0 && b[0] == 47 {
        b
    } else if a.len() > 0 && a.last() == 47 {
        a + b
    } else if a.len() == 0 {
        b
    } else {
        a + seq![47u8] + b
    }
}

/// Join a component under a base path.
pub fn join(a: &[u8], b: &[u8]) -> (r: Vec<u8>)
    ensures
        r@ == spec_join(a@, b@),
{
    if b.len() > 0 && b[0] == 47 {
        return slice_to_vec(b);
    }
    if a.len() == 0 {
        return slice_to_vec(b);
    }
    let mut out = slice_to_vec(a);
    if a[a.len() - 1] != 47 {
        out.push(47);
    }
    out.extend_from_slice(b);
    assert(out@ =~= spec_join(a@, b@));
    out
}

/// First index whose entry has key `k`, or `-1`.
pub open spec fn find_key<V>(s: Seq<(Vec<u8>, V)>, k: Seq<u8>) -> int
    decreases s.len(),
{
    if s.len() == 0 {
        -1
    } else if s[0].0@ == k {
        0
    } else {
        let r = find_key(s.drop_first(), k);
        if r < 0 {
            -1
        } else {
            1 + r
        }
    }
}

proof fn lemma_find_key_at<V>(s: Seq<(Vec<u8>, V)>, k: Seq<u8>, i: int)
    requires
        0 <= i < s.len(),
        s[i].0@ == k,
        forall|j: int| 0 <= j < i ==> s[j].0@ != k,
    ensures
        find_key(s, k) == i,
    decreases s.len(),
{
    if i > 0 {
        lemma_find_key_at(s.drop_first(), k, i - 1);
    }
}

proof fn lemma_find_key_none<V>(s: Seq<(Vec<u8>, V)>, k: Seq<u8>)
    requires
        forall|j: int| 0 <= j < s.len() ==> s[j].0@ != k,
    ensures
        find_key(s, k) == -1,
    decreases s.len(),
{
    if s.len() > 0 {
        lemma_find_key_none(s.drop_first(), k);
    }
}

/// A hit of `find_key` is in range and holds the key.
pub proof fn lemma_find_key_range<V>(s: Seq<(Vec<u8>, V)>, k: Seq<u8>)
    ensures
        find_key(s, k) >= 0 ==> find_key(s, k) < s.len() && s[find_key(s, k)].0@ == k,
        find_key(s, k) >= -1,
    decreases s.len(),
{
    if s.len() > 0 && s[0].0@ != k {
        lemma_find_key_range(s.drop_first(), k);
    }
}

/// Two disjoint path mappings: one of exact file paths, one of
/// directory prefixes.
#[derive(Debug)]
pub struct PathMatch<V> {
    pub dirs: Vec<(Vec<u8>, V)>,
    pub files: Vec<(Vec<u8>, V)>,
}

impl<V> PathMatch<V> {
    pub fn new() -> (r: PathMatch<V>)
        ensures
            r.dirs@ == Seq::<(Vec<u8>, V)>::empty(),
            r.files@ == Seq::<(Vec<u8>, V)>::empty(),
    {
        PathMatch { dirs: Vec::new(), files: Vec::new() }
    }

    /// Find an entry's index by key.
    pub(crate) fn list_find(list: &Vec<(Vec<u8>, V)>, key: &[u8]) -> (r: Option<usize>)
        ensures
            match r {
                Some(i) => find_key(list@, key@) == i && i < list@.len() && list@[
                    i as int
                ].0@ == key@,
                None => find_key(list@, key@) == -1,
            },
    {
        let mut i: usize = 0;
        while i < list.len()
            invariant
                i <= list.len(),
                forall|j: int| 0 <= j < i ==> list@[j].0@ != key@,
            decreases list.len() - i,
        {
            if bytes_eq(list[i].0.as_slice(), key) {
                proof {
                    lemma_find_key_at(list@, key@, i as int);
                }
                return Some(i);
            }
            i = i + 1;
        }
        proof {
            lemma_find_key_none(list@, key@);
        }
        None
    }
}

/// The directory walk of a route lookup: the first ancestor with a
/// directory entry decides, and the remainder of the path after that
/// prefix is carried over onto the mapped replacement.
pub open spec fn spec_dir_route(
    dirs: Seq<(Vec<u8>, Vec<u8>)>,
    ancs: Seq<Seq<u8>>,
    path: Seq<u8>,
) -> Option<Seq<u8>>
    decreases ancs.len(),
{
    if ancs.len() == 0 {
        None
    } else {
        let i = find_key(dirs, ancs[0]);
        if i >= 0 && i < dirs.len() {
            Some(dirs[i].1@ + path.skip(ancs[0].len() as int))
        } else {
            spec_dir_route(dirs, ancs.drop_first(), path)
        }
    }
}

impl PathMatch<Vec<u8>> {
    /// What a route lookup returns: the exact-file mapping if the path
    /// has one, else the nearest ancestor directory mapping with the
    /// rest of the path appended, else nothing.
    pub open spec fn spec_get(&self, path: Seq<u8>) -> Option<Seq<u8>> {
        let i = find_key(self.files@, path);
        if i >= 0 && i < self.files@.len() {
            Some(self.files@[i].1@)
        } else {
            spec_dir_route(self.dirs@, spec_ancestors(path), path)
        }
    }

    /// Add a mapping; whether it lands in the directory or the file
    /// table follows the caller's word on what the destination is,
    /// since the source path need not exist on disk. An existing entry
    /// of the same key is overwritten.
    pub fn add(&mut self, from: Vec<u8>, to: Vec<u8>, to_is_dir: bool)
        ensures
            to_is_dir ==> final(self).files@ == old(self).files@ && list_written(
                old(self).dirs@,
                final(self).dirs@,
                from@,
                to,
            ),
            !to_is_dir ==> final(self).dirs@ == old(self).dirs@ && list_written(
                old(self).files@,
                final(self).files@,
                from@,
                to,
            ),
    {
        if to_is_dir {
            Self::list_put(&mut self.dirs, from, to);
        } else {
            Self::list_put(&mut self.files, from, to);
        }
    }

    /// Insert or overwrite one entry.
    pub(crate) fn list_put(list: &mut Vec<(Vec<u8>, Vec<u8>)>, key: Vec<u8>, value: Vec<u8>)
        ensures
            list_written(old(list)@, final(list)@, key@, value),
    {
        let ghost s0 = list@;
        match Self::list_find(list, key.as_slice()) {
            Some(i) => {
                list[i] = (key, value);
            },
            None => {
                list.push((key, value));
            },
        }
    }

    /// Look a path up, exact file entries first, then ancestor
    /// directories from the innermost out.
    pub fn get(&self, path: &[u8]) -> (r: Option<Vec<u8>>)
        ensures
            r is Some <==> self.spec_get(path@) is Some,
            r is Some ==> r->0@ == self.spec_get(path@)->0,
    {
        match Self::list_find(&self.files, path) {
            Some(i) => {
                return Some(slice_to_vec(self.files[i].1.as_slice()));
            },
            None => {},
        }
        let mut cur: Vec<u8> = slice_to_vec(path);
        loop
            invariant
                find_key(self.files@, path@) == -1,
                cur@.len() <= path@.len(),
                cur@ == path@.take(cur@.len() as int),
                spec_dir_route(self.dirs@, spec_ancestors(path@), path@) == spec_dir_route(
                    self.dirs@,
                    spec_ancestors(cur@),
                    path@,
                ),
            decreases cur@.len() + 1,
        {
            match Self::list_find(&self.dirs, cur.as_slice()) {
                Some(i) => {
                    let mut out = slice_to_vec(self.dirs[i].1.as_slice());
                    let tail = slice_subrange(path, cur.len(), path.len());
                    out.extend_from_slice(tail);
                    proof {
                        assert(spec_ancestors(cur@)[0] == cur@);
                        assert(out@ == self.dirs@[i as int].1@ + path@.skip(cur@.len() as int));
                    }
                    return Some(out);
                },
                None => {},
            }
            proof {
                assert(spec_ancestors(cur@)[0] == cur@);
                if spec_parent(cur@) is Some {
                    assert(spec_ancestors(cur@).drop_first() =~~= spec_ancestors(
                        spec_parent(cur@)->0,
                    ));
                }
            }
            match parent_of(cur.as_slice()) {
                None => {
                    proof {
                        let ancs = spec_ancestors(cur@);
                        assert(ancs =~~= seq![cur@]);
                        assert(ancs[0] == cur@);
                        assert(ancs.drop_first() =~~= Seq::<Seq<u8>>::empty());
                        assert(spec_dir_route(self.dirs@, ancs.drop_first(), path@) is None);
                        assert(spec_dir_route(self.dirs@, ancs, path@) is None);
                    }
                    return None;
                },
                Some(par) => {
                    proof {
                        lemma_parent_prefix(cur@);
                        assert(par@ =~= path@.take(par@.len() as int));
                    }
                    cur = par;
                },
            }
        }
    }
}

/// How `list_put` changes a list: an existing key's entry is
/// overwritten in place, a new key's entry is appended.
pub open spec fn list_written(
    s0: Seq<(Vec<u8>, Vec<u8>)>,
    s1: Seq<(Vec<u8>, Vec<u8>)>,
    key: Seq<u8>,
    value: Vec<u8>,
) -> bool {
    if find_key(s0, key) >= 0 {
        s1.len() == s0.len() && s1[find_key(s0, key)].0@ == key && s1[find_key(s0, key)].1 == value
            && (forall|j: int| 0 <= j < s0.len() && j != find_key(s0, key) ==> s1[j] == s0[j])
    } else {
        s1.len() == s0.len() + 1 && s1.last().0@ == key && s1.last().1 == value && (forall|j: int|
            0 <= j < s0.len() ==> s1[j] == s0[j])
    }
}

/// Is any ancestor's key present in the list?
pub open spec fn spec_dir_hit<V>(dirs: Seq<(Vec<u8>, V)>, ancs: Seq<Seq<u8>>) -> bool
    decreases ancs.len(),
{
    if ancs.len() == 0 {
        false
    } else {
        find_key(dirs, ancs[0]) >= 0 || spec_dir_hit(dirs, ancs.drop_first())
    }
}

/// A directory walk finds a route exactly when some ancestor has a
/// directory entry.
pub proof fn lemma_dir_route_hit(
    dirs: Seq<(Vec<u8>, Vec<u8>)>,
    ancs: Seq<Seq<u8>>,
    path: Seq<u8>,
)
    ensures
        spec_dir_route(dirs, ancs, path) is Some <==> spec_dir_hit(dirs, ancs),
    decreases ancs.len(),
{
    if ancs.len() > 0 {
        lemma_find_key_range(dirs, ancs[0]);
        lemma_dir_route_hit(dirs, ancs.drop_first(), path);
    }
}

/// Route-override precedence: an exact-file entry for the path decides
/// even when a directory entry also matches; without one, the first
/// matching ancestor directory decides; with neither there is no
/// override at all.
pub proof fn lemma_override_precedence(m: &PathMatch<Vec<u8>>, path: Seq<u8>)
    ensures
        find_key(m.files@, path) >= 0 ==> m.spec_get(path) == Some(
            m.files@[find_key(m.files@, path)].1@,
        ),
        find_key(m.files@, path) < 0 ==> m.spec_get(path) == spec_dir_route(
            m.dirs@,
            spec_ancestors(path),
            path,
        ),
        find_key(m.files@, path) < 0 && !spec_dir_hit(m.dirs@, spec_ancestors(path))
            ==> m.spec_get(path) is None,
{
    lemma_find_key_range(m.files@, path);
    lemma_dir_route_hit(m.dirs@, spec_ancestors(path), path);
}

/// How `unit_put` changes a list: a present key changes nothing, a
/// new key's entry is appended.
pub open spec fn unit_written(s0: Seq<(Vec<u8>, ())>, s1: Seq<(Vec<u8>, ())>, key: Seq<u8>) -> bool {
    if find_key(s0, key) >= 0 {
        s1 == s0
    } else {
        s1.len() == s0.len() + 1 && s1.last().0@ == key && (forall|j: int|
            0 <= j < s0.len() ==> s1[j] == s0[j])
    }
}

impl PathMatch<()> {
    /// Is the path ignored: listed as an exact file, or lying at or
    /// under a listed directory?
    pub open spec fn spec_contains(&self, path: Seq<u8>) -> bool {
        find_key(self.files@, path) >= 0 || spec_dir_hit(self.dirs@, spec_ancestors(path))
    }

    /// Record a path, as a directory entry or as an exact file entry.
    pub fn add(&mut self, path: Vec<u8>, dir: bool)
        ensures
            dir ==> final(self).files@ == old(self).files@ && unit_written(
                old(self).dirs@,
                final(self).dirs@,
                path@,
            ),
            !dir ==> final(self).dirs@ == old(self).dirs@ && unit_written(
                old(self).files@,
                final(self).files@,
                path@,
            ),
    {
        if dir {
            Self::unit_put(&mut self.dirs, path);
        } else {
            Self::unit_put(&mut self.files, path);
        }
    }

    fn unit_put(list: &mut Vec<(Vec<u8>, ())>, key: Vec<u8>)
        ensures
            unit_written(old(list)@, final(list)@, key@),
    {
        match Self::list_find(list, key.as_slice()) {
            Some(_) => {},
            None => {
                list.push((key, ()));
            },
        }
    }

    /// Test a path against the ignore tables.
    pub fn contains(&self, path: &[u8]) -> (r: bool)
        ensures
            r == self.spec_contains(path@),
    {
        match Self::list_find(&self.files, path) {
            Some(_) => {
                return true;
            },
            None => {},
        }
        let mut cur: Vec<u8> = slice_to_vec(path);
        loop
            invariant
                find_key(self.files@, path@) == -1,
                spec_dir_hit(self.dirs@, spec_ancestors(path@)) == spec_dir_hit(
                    self.dirs@,
                    spec_ancestors(cur@),
                ),
            decreases cur@.len() + 1,
        {
            match Self::list_find(&self.dirs, cur.as_slice()) {
                Some(_) => {
                    proof {
                        assert(spec_ancestors(cur@)[0] == cur@);
                    }
                    return true;
                },
                None => {},
            }
            proof {
                assert(spec_ancestors(cur@)[0] == cur@);
                if spec_parent(cur@) is Some {
                    assert(spec_ancestors(cur@).drop_first() =~~= spec_ancestors(
                        spec_parent(cur@)->0,
                    ));
                }
            }
            match parent_of(cur.as_slice()) {
                None => {
                    proof {
                        let ancs = spec_ancestors(cur@);
                        assert(ancs =~~= seq![cur@]);
                        assert(ancs[0] == cur@);
                        assert(ancs.drop_first() =~~= Seq::<Seq<u8>>::empty());
                        assert(!spec_dir_hit(self.dirs@, ancs.drop_first()));
                        assert(!spec_dir_hit(self.dirs@, ancs));
                    }
                    return false;
                },
                Some(par) => {
                    proof {
                        lemma_parent_prefix(cur@);
                    }
                    cur = par;
                },
            }
        }
    }
}

} // verus!
