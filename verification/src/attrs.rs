//! The attribute mapping of an element: string keys to string values, with
//! unique keys and last-write-wins insertion.

use vstd::prelude::*;
use crate::text::str_eq;

verus! {

/// The mapping that a sequence of key/value pairs denotes; a later pair with
/// the same key wins.
spec fn pairs_to_map(s: Seq<(String, String)>) -> Map<Seq<char>, Seq<char>>
    decreases s.len(),
{
    if s.len() == 0 {
        Map::empty()
    } else {
        pairs_to_map(s.drop_last()).insert(s.last().0@, s.last().1@)
    }
}

/// No key occurs in two different pairs.
spec fn keys_distinct(s: Seq<(String, String)>) -> bool {
    forall|i: int, j: int| 0 <= i < j < s.len() ==> s[i].0@ != s[j].0@
}

/// A key is in the mapping exactly when some pair carries it.
proof fn lemma_ptm_contains(s: Seq<(String, String)>, k: Seq<char>)
    ensures
        pairs_to_map(s).contains_key(k) <==> exists|i: int| 0 <= i < s.len() && s[i].0@ == k,
    decreases s.len(),
{
    if s.len() > 0 {
        lemma_ptm_contains(s.drop_last(), k);
        if pairs_to_map(s).contains_key(k) {
            if s.last().0@ != k {
                let i = choose|i: int| 0 <= i < s.drop_last().len() && s.drop_last()[i].0@ == k;
                assert(s[i].0@ == k);
            }
        }
        if exists|i: int| 0 <= i < s.len() && s[i].0@ == k {
            let i = choose|i: int| 0 <= i < s.len() && s[i].0@ == k;
            if i < s.len() - 1 {
                assert(s.drop_last()[i].0@ == k);
            }
        }
    }
}

/// The value of a key is the value of the last pair that carries it.
proof fn lemma_ptm_get(s: Seq<(String, String)>, j: int, k: Seq<char>)
    requires
        0 <= j < s.len(),
        s[j].0@ == k,
        forall|l: int| j < l < s.len() ==> s[l].0@ != k,
    ensures
        pairs_to_map(s).contains_key(k),
        pairs_to_map(s)[k] == s[j].1@,
    decreases s.len(),
{
    if j == s.len() - 1 {
    } else {
        assert(forall|l: int| j < l < s.drop_last().len() ==> s.drop_last()[l].0@ != k);
        assert(s.drop_last()[j].0@ == k);
        lemma_ptm_get(s.drop_last(), j, k);
        assert(s.last().0@ != k);
    }
}

/// Replacing the pair that carries a key is insertion into the mapping.
proof fn lemma_ptm_update(s: Seq<(String, String)>, i: int, p: (String, String))
    requires
        keys_distinct(s),
        0 <= i < s.len(),
        p.0@ == s[i].0@,
    ensures
        pairs_to_map(s.update(i, p)) == pairs_to_map(s).insert(p.0@, p.1@),
    decreases s.len(),
{
    let k = p.0@;
    if i == s.len() - 1 {
        assert(s.update(i, p).drop_last() =~= s.drop_last());
        assert(pairs_to_map(s.update(i, p)) == pairs_to_map(s.drop_last()).insert(k, p.1@));
        assert(pairs_to_map(s.drop_last()).insert(k, s.last().1@).insert(k, p.1@) =~= pairs_to_map(
            s.drop_last(),
        ).insert(k, p.1@));
    } else {
        assert(s.update(i, p).drop_last() =~= s.drop_last().update(i, p));
        assert(keys_distinct(s.drop_last())) by {
            assert(forall|a: int, b: int|
                0 <= a < b < s.drop_last().len() ==> s.drop_last()[a].0@ == s[a].0@
                    && s.drop_last()[b].0@ == s[b].0@);
        }
        assert(s.drop_last()[i].0@ == s[i].0@);
        lemma_ptm_update(s.drop_last(), i, p);
        let last = s.last();
        assert(s.update(i, p).last() == last);
        assert(last.0@ != k);
        assert(pairs_to_map(s.drop_last()).insert(k, p.1@).insert(last.0@, last.1@) =~= pairs_to_map(
            s.drop_last(),
        ).insert(last.0@, last.1@).insert(k, p.1@));
    }
}

/// With distinct keys, the mapping has exactly one entry per pair.
proof fn lemma_ptm_len(s: Seq<(String, String)>)
    requires
        keys_distinct(s),
    ensures
        pairs_to_map(s).dom().finite(),
        pairs_to_map(s).dom().len() == s.len(),
    decreases s.len(),
{
    if s.len() > 0 {
        assert(keys_distinct(s.drop_last())) by {
            assert(forall|a: int, b: int|
                0 <= a < b < s.drop_last().len() ==> s.drop_last()[a].0@ == s[a].0@
                    && s.drop_last()[b].0@ == s[b].0@);
        }
        lemma_ptm_len(s.drop_last());
        lemma_ptm_contains(s.drop_last(), s.last().0@);
        assert(forall|i: int|
            0 <= i < s.drop_last().len() ==> s.drop_last()[i].0@ == s[i].0@ && s[i].0@
                != s.last().0@);
        assert(!pairs_to_map(s.drop_last()).contains_key(s.last().0@));
    }
}

/// A mapping from attribute names to attribute values.
pub struct AttrMap {
    pairs: Vec<(String, String)>,
}

impl View for AttrMap {
    type V = Map<Seq<char>, Seq<char>>;

    closed spec fn view(&self) -> Map<Seq<char>, Seq<char>> {
        pairs_to_map(self.pairs@)
    }
}

impl AttrMap {
    /// Every key is carried by exactly one stored pair.
    pub closed spec fn wf(&self) -> bool {
        keys_distinct(self.pairs@)
    }

    /// Creates an empty attribute mapping.
    pub fn new() -> (r: AttrMap)
        ensures
            r.wf(),
            r@ == Map::<Seq<char>, Seq<char>>::empty(),
    {
        AttrMap { pairs: Vec::new() }
    }

    /// Index of the pair carrying `key`, if any.
    fn find_key_index(&self, key: &str) -> (r: Option<usize>)
        ensures
            match r {
                Some(i) => i < self.pairs@.len() && self.pairs@[i as int].0@ == key@,
                None => forall|j: int| 0 <= j < self.pairs@.len() ==> self.pairs@[j].0@ != key@,
            },
    {
        let n = self.pairs.len();
        let mut i: usize = 0;
        while i < n
            invariant
                n == self.pairs@.len(),
                0 <= i <= n,
                forall|j: int| 0 <= j < i ==> self.pairs@[j].0@ != key@,
            decreases n - i,
        {
            if str_eq(self.pairs[i].0.as_str(), key) {
                return Some(i);
            }
            i = i + 1;
        }
        None
    }

    /// Binds `key` to `value`, replacing any earlier binding of `key`.
    pub fn insert(&mut self, key: String, value: String)
        requires
            old(self).wf(),
        ensures
            final(self).wf(),
            final(self)@ == old(self)@.insert(key@, value@),
    {
        match self.find_key_index(key.as_str()) {
            Some(i) => {
                proof {
                    lemma_ptm_update(self.pairs@, i as int, (key, value));
                }
                self.pairs[i] = (key, value);
            },
            None => {
                proof {
                    assert(self.pairs@.push((key, value)).drop_last() =~= self.pairs@);
                }
                self.pairs.push((key, value));
            },
        }
    }

    /// Looks a key up; `None` exactly when the key is absent.
    pub fn get(&self, key: &str) -> (r: Option<&String>)
        ensures
            match r {
                Some(v) => self@.contains_key(key@) && v@ == self@[key@],
                None => !self@.contains_key(key@),
            },
    {
        let n = self.pairs.len();
        let mut i: usize = n;
        while i > 0
            invariant
                n == self.pairs@.len(),
                0 <= i <= n,
                forall|l: int| i <= l < n ==> self.pairs@[l].0@ != key@,
            decreases i,
        {
            i = i - 1;
            if str_eq(self.pairs[i].0.as_str(), key) {
                proof {
                    lemma_ptm_get(self.pairs@, i as int, key@);
                }
                return Some(&self.pairs[i].1);
            }
        }
        proof {
            lemma_ptm_contains(self.pairs@, key@);
        }
        None
    }

    /// The number of attributes in the mapping.
    pub fn len(&self) -> (r: usize)
        requires
            self.wf(),
        ensures
            r == self@.dom().len(),
    {
        proof {
            lemma_ptm_len(self.pairs@);
        }
        self.pairs.len()
    }

    /// An independent copy with the same contents.
    pub fn duplicate(&self) -> (r: AttrMap)
        ensures
            r@ == self@,
            self.wf() ==> r.wf(),
    {
        let n = self.pairs.len();
        let mut out: Vec<(String, String)> = Vec::new();
        let mut i: usize = 0;
        while i < n
            invariant
                n == self.pairs@.len(),
                0 <= i <= n,
                out@.len() == i,
                forall|j: int| 0 <= j < i ==> out@[j] == self.pairs@[j],
            decreases n - i,
        {
            let k = self.pairs[i].0.clone();
            let v = self.pairs[i].1.clone();
            out.push((k, v));
            i = i + 1;
        }
        proof {
            assert(out@ =~= self.pairs@);
        }
        AttrMap { pairs: out }
    }
}

} // verus!
