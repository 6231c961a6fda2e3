//! A string-to-string record with unique keys, held sorted by key.
use vstd::prelude::*;

use crate::text::{
    compare_text, lemma_text_lt_irreflexive, lemma_text_lt_transitive, text_lt,
};

verus! {

/// The keys of `s` are in strictly increasing order (so each occurs once).
pub open spec fn sorted_keys(s: Seq<(String, String)>) -> bool {
    forall|i: int, j: int| 0 <= i < j < s.len() ==> text_lt(#[trigger] s[i].0@, #[trigger] s[j].0@)
}

/// The texts of `s` are in strictly increasing order.
pub open spec fn sorted_texts(s: Seq<Seq<char>>) -> bool {
    forall|i: int, j: int| 0 <= i < j < s.len() ==> text_lt(#[trigger] s[i], #[trigger] s[j])
}

pub open spec fn key_at(s: Seq<(String, String)>, k: Seq<char>, i: int) -> bool {
    0 <= i < s.len() && s[i].0@ == k
}

/// The mapping that a sequence of pairs with unique keys stands for.
pub open spec fn map_of(s: Seq<(String, String)>) -> Map<Seq<char>, Seq<char>> {
    Map::new(
        |k: Seq<char>| exists|i: int| key_at(s, k, i),
        |k: Seq<char>| s[choose|i: int| key_at(s, k, i)].1@,
    )
}

pub proof fn lemma_map_of_at(s: Seq<(String, String)>, i: int)
    requires
        sorted_keys(s),
        0 <= i < s.len(),
    ensures
        map_of(s).contains_key(s[i].0@),
        map_of(s)[s[i].0@] == s[i].1@,
{
    let k = s[i].0@;
    assert(key_at(s, k, i));
    let j = choose|j: int| key_at(s, k, j);
    if j != i {
        if j < i {
            assert(text_lt(s[j].0@, s[i].0@));
        } else {
            assert(text_lt(s[i].0@, s[j].0@));
        }
        lemma_text_lt_irreflexive(k);
    }
}

pub proof fn lemma_map_of_absent(s: Seq<(String, String)>, k: Seq<char>)
    requires
        forall|i: int| 0 <= i < s.len() ==> #[trigger] s[i].0@ != k,
    ensures
        !map_of(s).contains_key(k),
{
}

/// Two sorted sequences of pairs stand for the same mapping when each key
/// of one is found with its value in the other, and back.
proof fn lemma_map_of_ext(s: Seq<(String, String)>, m: Map<Seq<char>, Seq<char>>)
    requires
        sorted_keys(s),
        forall|i: int| 0 <= i < s.len() ==> #[trigger] m.contains_key(s[i].0@) && m[s[i].0@] == s[i].1@,
        forall|k: Seq<char>| #[trigger] m.contains_key(k) ==> exists|i: int| key_at(s, k, i),
    ensures
        map_of(s) == m,
{
    assert forall|k: Seq<char>| #[trigger] map_of(s).contains_key(k) == m.contains_key(k) by {
        if map_of(s).contains_key(k) {
            let i = choose|i: int| key_at(s, k, i);
            assert(m.contains_key(s[i].0@));
        }
    }
    assert forall|k: Seq<char>| #[trigger] map_of(s).contains_key(k) implies map_of(s)[k] == m[k] by {
        let i = choose|i: int| key_at(s, k, i);
        lemma_map_of_at(s, i);
        assert(m.contains_key(s[i].0@));
    }
    assert(map_of(s) =~= m);
}

/// A mapping from text keys to text values, such as a sidecar record or the
/// metadata of a track.
pub struct Record {
    entries: Vec<(String, String)>,
}

impl View for Record {
    type V = Map<Seq<char>, Seq<char>>;

    closed spec fn view(&self) -> Map<Seq<char>, Seq<char>> {
        map_of(self.entries@)
    }
}

impl Record {
    pub closed spec fn wf(&self) -> bool {
        sorted_keys(self.entries@)
    }

    /// The empty record.
    pub fn new() -> (r: Record)
        ensures
            r.wf(),
            r@ == Map::<Seq<char>, Seq<char>>::empty(),
    {
        let r = Record { entries: Vec::new() };
        assert(map_of(r.entries@) =~= Map::<Seq<char>, Seq<char>>::empty());
        r
    }

    /// Where `key` stands or would stand, and whether it is there.
    fn find(&self, key: &str) -> (r: (usize, bool))
        requires
            self.wf(),
        ensures
            r.0 <= self.entries@.len(),
            forall|j: int| 0 <= j < r.0 ==> text_lt(#[trigger] self.entries@[j].0@, key@),
            r.1 ==> r.0 < self.entries@.len() && self.entries@[r.0 as int].0@ == key@,
            !r.1 ==> forall|j: int| r.0 <= j < self.entries@.len() ==> text_lt(key@, #[trigger] self.entries@[j].0@),
    {
        let n = self.entries.len();
        let mut i: usize = 0;
        while i < n
            invariant
                n == self.entries@.len(),
                i <= n,
                self.wf(),
                forall|j: int| 0 <= j < i ==> text_lt(#[trigger] self.entries@[j].0@, key@),
            decreases n - i,
        {
            let c = compare_text(self.entries[i].0.as_str(), key);
            if c == 0 {
                return (i, true);
            }
            if c > 0 {
                assert forall|j: int| i <= j < n implies text_lt(key@, #[trigger] self.entries@[j].0@) by {
                    if j > i {
                        assert(text_lt(self.entries@[i as int].0@, self.entries@[j].0@));
                        lemma_text_lt_transitive(key@, self.entries@[i as int].0@, self.entries@[j].0@);
                    }
                }
                return (i, false);
            }
            i = i + 1;
        }
        (i, false)
    }

    /// The value under `key`, if any.
    pub fn get(&self, key: &str) -> (r: Option<&String>)
        requires
            self.wf(),
        ensures
            r matches Some(v) ==> self@.contains_key(key@) && self@[key@] == v@,
            r is None ==> !self@.contains_key(key@),
    {
        let (i, found) = self.find(key);
        if found {
            proof {
                lemma_map_of_at(self.entries@, i as int);
            }
            Some(&self.entries[i].1)
        } else {
            proof {
                assert forall|j: int| 0 <= j < self.entries@.len() implies #[trigger] self.entries@[j].0@ != key@ by {
                    if j < i {
                        assert(text_lt(self.entries@[j].0@, key@));
                    } else {
                        assert(text_lt(key@, self.entries@[j].0@));
                    }
                    lemma_text_lt_irreflexive(key@);
                }
                lemma_map_of_absent(self.entries@, key@);
            }
            None
        }
    }

    /// Whether `key` has a value.
    pub fn contains_key(&self, key: &str) -> (r: bool)
        requires
            self.wf(),
        ensures
            r == self@.contains_key(key@),
    {
        self.get(key).is_some()
    }

    /// Sets `key` to `value`, replacing a value it had.
    pub fn insert(&mut self, key: String, value: String)
        requires
            old(self).wf(),
        ensures
            final(self).wf(),
            final(self)@ == old(self)@.insert(key@, value@),
    {
        let ghost s0 = self.entries@;
        let (i, found) = self.find(key.as_str());
        let ghost kv = key@;
        let ghost vv = value@;
        if found {
            self.entries.set(i, (key, value));
            let ghost s1 = self.entries@;
            proof {
                assert forall|a: int, b: int| 0 <= a < b < s1.len() implies text_lt(#[trigger] s1[a].0@, #[trigger] s1[b].0@) by {
                    assert(text_lt(s0[a].0@, s0[b].0@));
                }
                let mm = map_of(s0).insert(kv, vv);
                assert forall|j: int| 0 <= j < s1.len() implies #[trigger] mm.contains_key(s1[j].0@) && mm[s1[j].0@] == s1[j].1@ by {
                    if j != i {
                        lemma_map_of_at(s0, j);
                        assert(text_lt(s0[j].0@, kv) || text_lt(kv, s0[j].0@));
                        if s0[j].0@ == kv {
                            lemma_text_lt_irreflexive(kv);
                        }
                    }
                }
                assert forall|k: Seq<char>| #[trigger] mm.contains_key(k) implies exists|j: int| key_at(s1, k, j) by {
                    if k == kv {
                        assert(key_at(s1, k, i as int));
                    } else {
                        let j = choose|j: int| key_at(s0, k, j);
                        assert(key_at(s1, k, j));
                    }
                }
                lemma_map_of_ext(s1, mm);
            }
        } else {
            self.entries.insert(i, (key, value));
            let ghost s1 = self.entries@;
            proof {
                assert forall|a: int, b: int| 0 <= a < b < s1.len() implies text_lt(#[trigger] s1[a].0@, #[trigger] s1[b].0@) by {
                    if b < i {
                        assert(text_lt(s0[a].0@, s0[b].0@));
                    } else if b == i {
                        assert(text_lt(s0[a].0@, kv));
                    } else if a < i {
                        assert(text_lt(s0[a].0@, kv));
                        assert(text_lt(kv, s0[b - 1].0@));
                        lemma_text_lt_transitive(s0[a].0@, kv, s0[b - 1].0@);
                    } else if a == i {
                        assert(text_lt(kv, s0[b - 1].0@));
                    } else {
                        assert(text_lt(s0[a - 1].0@, s0[b - 1].0@));
                    }
                }
                let mm = map_of(s0).insert(kv, vv);
                assert forall|j: int| 0 <= j < s1.len() implies #[trigger] mm.contains_key(s1[j].0@) && mm[s1[j].0@] == s1[j].1@ by {
                    if j != i {
                        let j0 = if j < i { j } else { j - 1 };
                        lemma_map_of_at(s0, j0);
                        assert(s1[j] == s0[j0]);
                        if s0[j0].0@ == kv {
                            lemma_text_lt_irreflexive(kv);
                        }
                    }
                }
                assert forall|k: Seq<char>| #[trigger] mm.contains_key(k) implies exists|j: int| key_at(s1, k, j) by {
                    if k == kv {
                        assert(key_at(s1, k, i as int));
                    } else {
                        let j = choose|j: int| key_at(s0, k, j);
                        if j < i {
                            assert(key_at(s1, k, j));
                        } else {
                            assert(key_at(s1, k, j + 1));
                        }
                    }
                }
                lemma_map_of_ext(s1, mm);
            }
        }
    }

    /// Takes `key` out of the record, if it is there.
    pub fn remove(&mut self, key: &str)
        requires
            old(self).wf(),
        ensures
            final(self).wf(),
            final(self)@ == old(self)@.remove(key@),
    {
        let ghost s0 = self.entries@;
        let (i, found) = self.find(key);
        let ghost kv = key@;
        let mm = Ghost(map_of(s0).remove(kv));
        if found {
            self.entries.remove(i);
            let ghost s1 = self.entries@;
            proof {
                assert forall|a: int, b: int| 0 <= a < b < s1.len() implies text_lt(#[trigger] s1[a].0@, #[trigger] s1[b].0@) by {
                    let a0 = if a < i { a } else { a + 1 };
                    assert(s1[a] == s0[a0]);
                    assert(s1[b] == s0[b + 1] || s1[b] == s0[b]);
                    if b < i {
                        assert(text_lt(s0[a].0@, s0[b].0@));
                    } else {
                        assert(text_lt(s0[a0].0@, s0[b + 1].0@));
                    }
                }
                let mm = mm@;
                assert(s0[i as int].0@ == kv);
                assert forall|j: int| 0 <= j < s1.len() implies #[trigger] mm.contains_key(s1[j].0@) && mm[s1[j].0@] == s1[j].1@ by {
                    let j0 = if j < i { j } else { j + 1 };
                    assert(s1[j] == s0[j0]);
                    lemma_map_of_at(s0, j0);
                    if j0 < i {
                        assert(text_lt(s0[j0].0@, s0[i as int].0@));
                    } else {
                        assert(text_lt(s0[i as int].0@, s0[j0].0@));
                    }
                    lemma_text_lt_irreflexive(kv);
                }
                assert forall|k: Seq<char>| #[trigger] mm.contains_key(k) implies exists|j: int| key_at(s1, k, j) by {
                    let j = choose|j: int| key_at(s0, k, j);
                    if j < i {
                        assert(key_at(s1, k, j));
                    } else {
                        assert(j != i);
                        assert(key_at(s1, k, j - 1));
                    }
                }
                lemma_map_of_ext(s1, mm);
            }
        } else {
            proof {
                assert forall|j: int| 0 <= j < s0.len() implies #[trigger] s0[j].0@ != kv by {
                    if j < i {
                        assert(text_lt(s0[j].0@, kv));
                    } else {
                        assert(text_lt(kv, s0[j].0@));
                    }
                    lemma_text_lt_irreflexive(kv);
                }
                lemma_map_of_absent(s0, kv);
                assert(map_of(s0).remove(kv) =~= map_of(s0));
            }
        }
    }

    /// The number of keys.
    pub fn len(&self) -> (r: usize)
        requires
            self.wf(),
        ensures
            r == self@.dom().len(),
    {
        proof {
            self.lemma_len();
        }
        self.entries.len()
    }

    proof fn lemma_len(&self)
        requires
            self.wf(),
        ensures
            self@.dom().len() == self.entries@.len(),
        decreases self.entries@.len(),
    {
        let s = self.entries@;
        let ks = Seq::new(s.len(), |i: int| s[i].0@);
        assert forall|i: int, j: int| 0 <= i < j < ks.len() implies ks[i] != ks[j] by {
            assert(text_lt(s[i].0@, s[j].0@));
            lemma_text_lt_irreflexive(s[i].0@);
        }
        ks.unique_seq_to_set();
        assert forall|k: Seq<char>| #[trigger] self@.dom().contains(k) == ks.to_set().contains(k) by {
            if self@.dom().contains(k) {
                let i = choose|i: int| key_at(s, k, i);
                assert(ks[i] == k);
            }
            if ks.to_set().contains(k) {
                let i = choose|i: int| 0 <= i < ks.len() && ks[i] == k;
                assert(key_at(s, k, i));
            }
        }
        assert(self@.dom() =~= ks.to_set());
    }

    /// The keys, in increasing order.
    pub fn keys(&self) -> (r: Vec<String>)
        requires
            self.wf(),
        ensures
            sorted_texts(r@.map_values(|k: String| k@)),
            r@.map_values(|k: String| k@).to_set() == self@.dom(),
    {
        let n = self.entries.len();
        let mut out: Vec<String> = Vec::new();
        let mut i: usize = 0;
        while i < n
            invariant
                n == self.entries@.len(),
                i <= n,
                self.wf(),
                out@.len() == i,
                forall|j: int| 0 <= j < i ==> (#[trigger] out@[j])@ == self.entries@[j].0@,
            decreases n - i,
        {
            out.push(self.entries[i].0.clone());
            i = i + 1;
        }
        let ghost ks = out@.map_values(|k: String| k@);
        proof {
            let s = self.entries@;
            assert forall|a: int, b: int| 0 <= a < b < ks.len() implies text_lt(#[trigger] ks[a], #[trigger] ks[b]) by {
                assert(text_lt(s[a].0@, s[b].0@));
            }
            assert forall|k: Seq<char>| #[trigger] ks.to_set().contains(k) == self@.dom().contains(k) by {
                if self@.dom().contains(k) {
                    let i = choose|i: int| key_at(s, k, i);
                    assert(ks[i] == k);
                }
                if ks.to_set().contains(k) {
                    let i = choose|i: int| 0 <= i < ks.len() && ks[i] == k;
                    assert(key_at(s, k, i));
                }
            }
            assert(ks.to_set() =~= self@.dom());
        }
        out
    }

    /// The pairs of the record, in increasing order of key.
    pub fn pairs(&self) -> (r: &Vec<(String, String)>)
        requires
            self.wf(),
        ensures
            sorted_keys(r@),
            map_of(r@) == self@,
    {
        &self.entries
    }
}

} // verus!
