//! A map from strings to strings in which a later insertion of a key replaces
//! the earlier one, as with `HashMap::insert`.
use vstd::prelude::*;

verus! {

/// A list of (key, value) pairs read as a map: the last pair with a given key wins.
pub open spec fn assoc_map(s: Seq<(Seq<char>, Seq<char>)>) -> Map<Seq<char>, Seq<char>>
    decreases s.len(),
{
    if s.len() == 0 {
        Map::empty()
    } else {
        assoc_map(s.drop_last()).insert(s.last().0, s.last().1)
    }
}

pub open spec fn pairs_view(s: Seq<(String, String)>) -> Seq<(Seq<char>, Seq<char>)> {
    s.map_values(|p: (String, String)| (p.0@, p.1@))
}

/// The value of the last pair with key `k`.
pub proof fn lemma_assoc_last(s: Seq<(Seq<char>, Seq<char>)>, k: Seq<char>, i: int)
    requires
        0 <= i < s.len(),
        s[i].0 == k,
        forall|j: int| i < j < s.len() ==> (#[trigger] s[j]).0 != k,
    ensures
        assoc_map(s).contains_key(k),
        assoc_map(s)[k] == s[i].1,
    decreases s.len(),
{
    if i < s.len() - 1 {
        let t = s.drop_last();
        assert forall|j: int| i < j < t.len() implies (#[trigger] t[j]).0 != k by {
            assert(t[j] == s[j]);
        }
        lemma_assoc_last(t, k, i);
        assert(s[s.len() - 1].0 != k);
    }
}

/// A key that no pair carries is absent.
pub proof fn lemma_assoc_absent(s: Seq<(Seq<char>, Seq<char>)>, k: Seq<char>)
    requires
        forall|j: int| 0 <= j < s.len() ==> (#[trigger] s[j]).0 != k,
    ensures
        !assoc_map(s).contains_key(k),
    decreases s.len(),
{
    if s.len() > 0 {
        let t = s.drop_last();
        assert forall|j: int| 0 <= j < t.len() implies (#[trigger] t[j]).0 != k by {
            assert(t[j] == s[j]);
        }
        lemma_assoc_absent(t, k);
        assert(s[s.len() - 1].0 != k);
    }
}

pub struct StrMap {
    entries: Vec<(String, String)>,
}

impl View for StrMap {
    type V = Map<Seq<char>, Seq<char>>;

    closed spec fn view(&self) -> Map<Seq<char>, Seq<char>> {
        assoc_map(pairs_view(self.entries@))
    }
}

impl StrMap {
    pub fn new() -> (m: Self)
        ensures
            m@ == Map::<Seq<char>, Seq<char>>::empty(),
    {
        let m = StrMap { entries: Vec::new() };
        proof {
            assert(pairs_view(m.entries@).len() == 0);
        }
        m
    }

    /// Sets `key` to `value`, replacing any earlier value.
    pub fn insert(&mut self, key: String, value: String)
        ensures
            final(self)@ == old(self)@.insert(key@, value@),
    {
        let ghost old_entries = self.entries@;
        let ghost kv = key@;
        let ghost vv = value@;
        self.entries.push((key, value));
        proof {
            assert(pairs_view(self.entries@).drop_last() =~= pairs_view(old_entries));
            assert(pairs_view(self.entries@).last() == (kv, vv));
        }
    }

    /// The value that `key` maps to.
    pub fn get(&self, key: &String) -> (r: Option<&String>)
        ensures
            match r {
                Some(v) => self@.contains_key(key@) && self@[key@] == v@,
                None => !self@.contains_key(key@),
            },
    {
        let ghost s = pairs_view(self.entries@);
        let mut i = self.entries.len();
        while i > 0
            invariant
                i <= self.entries@.len(),
                s == pairs_view(self.entries@),
                forall|j: int| i <= j < s.len() ==> (#[trigger] s[j]).0 != key@,
            decreases i,
        {
            i = i - 1;
            if self.entries[i].0 == *key {
                proof {
                    lemma_assoc_last(s, key@, i as int);
                }
                return Some(&self.entries[i].1);
            }
        }
        proof {
            lemma_assoc_absent(s, key@);
        }
        None
    }
}

} // verus!
