//! The substring index over symbol names.
//!
//! Every indexed name is filed, in lower case, under each of its windows of
//! two to four characters. A query is answered from the posting sets of its
//! own windows, and each candidate is then checked against the whole name, so
//! the answer is exact. Queries of fewer than two characters match by prefix.

use vstd::prelude::*;
use vstd::string::*;
use std::collections::HashMap;
use crate::node::NodeId;
use crate::order::{ascending, sort_handles};
use crate::postings::PostingMap;
use crate::text::{
    MIN_NGRAM_LEN, is_prefix, is_substring, is_window, lemma_substring_trans, lists_text,
    lowercase, occurs_at, str_contains, str_starts_with, to_lower, windows,
};

verus! {

broadcast use vstd::std_specs::hash::group_hash_axioms;

/// Whether the lower-case query `q` matches the lower-case name `name`.
pub open spec fn query_matches(q: Seq<char>, name: Seq<char>) -> bool {
    if q.len() < MIN_NGRAM_LEN {
        is_prefix(name, q)
    } else {
        is_substring(name, q)
    }
}

/// `p` is a prefix of `name` of at most one character.
pub open spec fn is_head(name: Seq<char>, p: Seq<char>) -> bool {
    p.len() <= 1 && is_prefix(name, p)
}

/// The handles of `list` as node ids.
pub fn as_node_ids(list: &Vec<usize>) -> (out: Vec<NodeId>)
    ensures
        out@.len() == list@.len(),
        forall|i: int| 0 <= i < out@.len() ==> (#[trigger] out@[i]).raw == list@[i],
{
    let mut out: Vec<NodeId> = Vec::new();
    let mut i: usize = 0;
    while i < list.len()
        invariant
            i <= list.len(),
            out@.len() == i,
            forall|k: int| 0 <= k < i ==> (#[trigger] out@[k]).raw == list@[k],
        decreases list.len() - i,
    {
        out.push(NodeId::new(list[i]));
        i = i + 1;
    }
    out
}

/// An inverted index from windows of names to the handles that bear them.
pub struct SearchIndex {
    names: HashMap<usize, String>,
    exact: PostingMap,
    heads: PostingMap,
    grams: PostingMap,
}

impl View for SearchIndex {
    type V = Map<usize, Seq<char>>;

    /// The lower-case name each indexed handle is filed under.
    closed spec fn view(&self) -> Map<usize, Seq<char>> {
        Map::new(|h: usize| self.names@.contains_key(h), |h: usize| self.names@[h]@)
    }
}

impl SearchIndex {
    /// The posting sets cover every indexed name.
    pub closed spec fn wf(&self) -> bool {
        &&& self.exact.wf()
        &&& self.heads.wf()
        &&& self.grams.wf()
        &&& self.names@.dom().finite()
        &&& forall|h: usize| #[trigger]
            self.names@.contains_key(h) ==> self.exact.members(self.names@[h]@).contains(h)
        &&& forall|key: Seq<char>, h: usize| #[trigger]
            self.exact.members(key).contains(h) ==> self.names@.contains_key(h)
                && self.names@[h]@ == key
        &&& forall|h: usize, p: Seq<char>|
            self.names@.contains_key(h) && #[trigger] is_head(self.names@[h]@, p)
                ==> self.heads.members(p).contains(h)
        &&& forall|h: usize, w: Seq<char>|
            self.names@.contains_key(h) && #[trigger] is_window(self.names@[h]@, w)
                ==> self.grams.members(w).contains(h)
    }

    /// The distinct names in the index.
    pub closed spec fn names_in_use(&self) -> Set<Seq<char>> {
        self.exact.keys()
    }

    /// A name is in use exactly when some handle is filed under it.
    pub proof fn lemma_names_in_use(&self, name: Seq<char>)
        requires
            self.wf(),
        ensures
            self.names_in_use().contains(name) <==> exists|h: usize| self@.contains_key(h) && self@[h] == name,
    {
        self.exact.lemma_keys(name);
        if self.names_in_use().contains(name) {
            let h = choose|h: usize| self.exact.members(name).contains(h);
            assert(self@.contains_key(h) && self@[h] == name);
        }
        if exists|h: usize| self@.contains_key(h) && self@[h] == name {
            let h = choose|h: usize| self@.contains_key(h) && self@[h] == name;
            assert(self.names@.contains_key(h));
            assert(self.exact.members(name).contains(h));
        }
    }

    /// An index that holds no name.
    pub fn new() -> (out: SearchIndex)
        ensures
            out.wf(),
            out@ == Map::<usize, Seq<char>>::empty(),
    {
        let out = SearchIndex {
            names: HashMap::new(),
            exact: PostingMap::new(),
            heads: PostingMap::new(),
            grams: PostingMap::new(),
        };
        assert(out@ =~= Map::<usize, Seq<char>>::empty());
        out
    }

    /// Takes the entry of `h` out of every posting set.
    fn drop_entry(&mut self, h: usize)
        requires
            old(self).wf(),
        ensures
            final(self).wf(),
            final(self)@ == old(self)@.remove(h),
    {
        let name = match self.names.get(&h) {
            Some(n) => n.clone(),
            None => {
                assert(old(self)@.remove(h) =~= old(self)@);
                return ;
            },
        };
        let ghost before = *self;
        self.exact.remove(name.as_str(), h);
        self.heads.remove("", h);
        if name.as_str().unicode_len() >= 1 {
            let first = name.as_str().substring_char(0, 1);
            self.heads.remove(first, h);
        }
        let ws = windows(name.as_str());
        let ghost mid = *self;
        let mut i: usize = 0;
        while i < ws.len()
            invariant
                i <= ws.len(),
                self.grams.wf(),
                self.exact == mid.exact,
                self.heads == mid.heads,
                self.names == mid.names,
                forall|key: Seq<char>, x: usize|
                    x != h ==> (#[trigger] self.grams.members(key).contains(x)
                        <==> before.grams.members(key).contains(x)),
            decreases ws.len() - i,
        {
            let ghost prev = self.grams;
            self.grams.remove(ws[i].as_str(), h);
            proof {
                assert forall|key: Seq<char>, x: usize| x != h implies (
                #[trigger] self.grams.members(key).contains(x) <==> before.grams.members(
                    key,
                ).contains(x)) by {
                    assert(prev.members(key).contains(x) <==> before.grams.members(key).contains(x));
                    if key != ws@[i as int]@ {
                        assert(self.grams.members(key) == prev.members(key));
                    }
                }
            }
            i = i + 1;
        }
        self.names.remove(&h);
        proof {
            assert(self@ =~= old(self)@.remove(h));
            assert forall|x: usize| #[trigger] self.names@.contains_key(x) implies self.exact.members(self.names@[x]@).contains(x) by {
                assert(before.names@.contains_key(x));
                assert(before.exact.members(before.names@[x]@).contains(x));
            }
            assert forall|key: Seq<char>, x: usize| #[trigger] self.exact.members(
                key,
            ).contains(x) implies self.names@.contains_key(x) && self.names@[x]@
                == key by {
                assert(before.exact.members(key).contains(x));
                if x == h {
                    assert(before.names@[h]@ == key);
                    assert(key == name@);
                }
            }
            assert forall|x: usize, p: Seq<char>|
                self.names@.contains_key(x) && #[trigger] is_head(
                    self.names@[x]@,
                    p,
                ) implies self.heads.members(p).contains(x) by {
                assert(before.names@.contains_key(x));
                assert(is_head(before.names@[x]@, p));
                assert(before.heads.members(p).contains(x));
            }
            assert forall|x: usize, w: Seq<char>|
                self.names@.contains_key(x) && #[trigger] is_window(
                    self.names@[x]@,
                    w,
                ) implies self.grams.members(w).contains(x) by {
                assert(before.names@.contains_key(x));
                assert(is_window(before.names@[x]@, w));
                assert(before.grams.members(w).contains(x));
            }
        }
    }

    /// Files handle `id` under `name`. A handle has one name: filing it again
    /// replaces the name it had.
    pub fn insert(&mut self, name: &str, id: NodeId)
        requires
            old(self).wf(),
        ensures
            final(self).wf(),
            final(self)@ == old(self)@.insert(id.raw, lowercase(name@)),
    {
        let h = id.raw;
        let lower = to_lower(name);
        self.drop_entry(h);
        let ghost before = *self;
        proof {
            assert(!before@.contains_key(h));
            assert(!before.names@.contains_key(h));
            assert forall|x: usize| #[trigger] before.names@.contains_key(x) implies old(self)@.contains_key(x)
                && old(self)@[x] == before.names@[x]@ by {
                assert(before@.contains_key(x));
                assert(before@[x] == before.names@[x]@);
            }
            assert forall|x: usize| x != h && #[trigger] old(self)@.contains_key(x) implies before.names@.contains_key(x) by {
                assert(before@.contains_key(x));
            }
        }
        self.names.insert(h, lower.clone());
        self.exact.add(lower.as_str(), h);
        self.heads.add("", h);
        proof {
            reveal_strlit("");
        }
        if lower.as_str().unicode_len() >= 1 {
            let first = lower.as_str().substring_char(0, 1);
            self.heads.add(first, h);
        }
        let ghost heads_done = self.heads;
        proof {
            assert forall|p: Seq<char>| is_head(lower@, p) implies heads_done.members(p).contains(
                h,
            ) by {
                if p.len() == 0 {
                    assert(p =~= ""@);
                } else {
                    assert(p == lower@.subrange(0, 1));
                }
            }
        }
        let ws = windows(lower.as_str());
        let ghost mid = *self;
        let mut i: usize = 0;
        while i < ws.len()
            invariant
                i <= ws.len(),
                self.grams.wf(),
                self.exact == mid.exact,
                self.heads == mid.heads,
                self.names == mid.names,
                forall|key: Seq<char>, x: usize| #[trigger]
                    before.grams.members(key).contains(x) ==> self.grams.members(key).contains(x),
                forall|k: int| 0 <= k < i ==> self.grams.members((#[trigger] ws@[k])@).contains(h),
            decreases ws.len() - i,
        {
            let ghost prev = self.grams;
            self.grams.add(ws[i].as_str(), h);
            proof {
                assert forall|key: Seq<char>, x: usize| #[trigger]
                    prev.members(key).contains(x) implies self.grams.members(key).contains(
                    x,
                ) by {
                    if key != ws@[i as int]@ {
                        assert(self.grams.members(key) == prev.members(key));
                    }
                }
            }
            i = i + 1;
        }
        proof {
            assert(self.names@ == before.names@.insert(h, lower));
            let target = old(self)@.insert(h, lowercase(name@));
            assert forall|x: usize| self@.contains_key(x) <==> target.contains_key(x) by {
                if x != h {
                    if before.names@.contains_key(x) {
                        assert(old(self)@.contains_key(x));
                    }
                    if old(self)@.contains_key(x) {
                        assert(before.names@.contains_key(x));
                    }
                }
            }
            assert forall|x: usize| self@.contains_key(x) implies self@[x] == target[x] by {
                if x != h {
                    assert(before.names@.contains_key(x));
                    assert(old(self)@[x] == before.names@[x]@);
                }
            }
            assert(self@ =~= target);
            assert forall|x: usize| #[trigger] self.names@.contains_key(x) implies self.exact.members(self.names@[x]@).contains(x) by {
                if x != h {
                    assert(before.names@.contains_key(x));
                    assert(before.exact.members(before.names@[x]@).contains(x));
                }
            }
            assert forall|key: Seq<char>, x: usize| #[trigger] self.exact.members(
                key,
            ).contains(x) implies self.names@.contains_key(x) && self.names@[x]@
                == key by {
                if key == lower@ {
                    if x != h {
                        assert(before.exact.members(key).contains(x));
                    }
                } else {
                    assert(before.exact.members(key).contains(x));
                    assert(x != h);
                }
            }
            assert forall|x: usize, p: Seq<char>|
                self.names@.contains_key(x) && #[trigger] is_head(
                    self.names@[x]@,
                    p,
                ) implies self.heads.members(p).contains(x) by {
                if x != h {
                    assert(before.names@.contains_key(x));
                    assert(is_head(before.names@[x]@, p));
                    assert(before.heads.members(p).contains(x));
                }
            }
            assert forall|x: usize, w: Seq<char>|
                self.names@.contains_key(x) && #[trigger] is_window(
                    self.names@[x]@,
                    w,
                ) implies self.grams.members(w).contains(x) by {
                if x != h {
                    assert(before.names@.contains_key(x));
                    assert(is_window(before.names@[x]@, w));
                    assert(before.grams.members(w).contains(x));
                } else {
                    assert(lists_text(ws@, w));
                    let k = choose|k: int| 0 <= k < ws@.len() && (#[trigger] ws@[k])@ == w;
                    assert(self.grams.members(ws@[k]@).contains(h));
                }
            }
        }
    }

    /// Takes handle `id` out of the index if it is filed under `name`;
    /// otherwise the index stays as it is.
    pub fn remove(&mut self, name: &str, id: NodeId)
        requires
            old(self).wf(),
        ensures
            final(self).wf(),
            final(self)@ == (if old(self)@.contains_key(id.raw) && old(self)@[id.raw] == lowercase(name@) {
                old(self)@.remove(id.raw)
            } else {
                old(self)@
            }),
    {
        let h = id.raw;
        let lower = to_lower(name);
        let filed = match self.names.get(&h) {
            Some(n) => *n == lower,
            None => false,
        };
        if filed {
            self.drop_entry(h);
        }
    }

    /// The name handle `id` is filed under, in lower case.
    pub fn name_of(&self, id: NodeId) -> (out: Option<&String>)
        ensures
            out.is_some() == self@.contains_key(id.raw),
            out.is_some() ==> out.unwrap()@ == self@[id.raw],
    {
        self.names.get(&id.raw)
    }

    /// The handles whose names match `query`, in ascending order. A query of
    /// two or more characters matches the names that contain it; a shorter
    /// one matches the names that start with it. Case is ignored.
    pub fn search(&self, query: &str) -> (out: Vec<NodeId>)
        requires
            self.wf(),
        ensures
            forall|i: int, j: int| 0 <= i < j < out@.len() ==> out@[i].raw < out@[j].raw,
            forall|i: int| 0 <= i < out@.len() ==> self@.contains_key((#[trigger] out@[i]).raw)
                && query_matches(lowercase(query@), self@[out@[i].raw]),
            forall|h: usize| self@.contains_key(h) && query_matches(lowercase(query@), self@[h])
                ==> exists|i: int| 0 <= i < out@.len() && (#[trigger] out@[i]).raw == h,
    {
        let q = to_lower(query);
        let qlen = q.as_str().unicode_len();
        let short = qlen < MIN_NGRAM_LEN;
        let ws = if short { Vec::new() } else { windows(q.as_str()) };
        let cands = if short {
            self.heads.get(q.as_str())
        } else {
            proof {
                assert(occurs_at(q@, q@.subrange(0, 2), 0));
                assert(is_window(q@, q@.subrange(0, 2)));
                assert(lists_text(ws@, q@.subrange(0, 2)));
            }
            self.grams.get(ws[0].as_str())
        };
        let mut kept: Vec<usize> = Vec::new();
        let mut i: usize = 0;
        while i < cands.len()
            invariant
                i <= cands.len(),
                self.wf(),
                q@ == lowercase(query@),
                short == (q@.len() < MIN_NGRAM_LEN),
                cands@.no_duplicates(),
                kept@.no_duplicates(),
                forall|k: int| 0 <= k < ws@.len() ==> is_window(q@, (#[trigger] ws@[k])@),
                forall|x: usize| kept@.contains(x) <==> (self@.contains_key(x) && query_matches(q@, self@[x])
                    && exists|j: int| 0 <= j < i && cands@[j] == x),
            decreases cands.len() - i,
        {
            let h = cands[i];
            let mut in_all = true;
            let mut k: usize = 0;
            while k < ws.len()
                invariant
                    k <= ws.len(),
                    self.wf(),
                    in_all ==> forall|m: int| 0 <= m < k ==> self.grams.members((#[trigger] ws@[m])@).contains(h),
                    !in_all ==> exists|m: int| 0 <= m < ws@.len() && !self.grams.members((#[trigger] ws@[m])@).contains(h),
                decreases ws.len() - k,
            {
                if !self.grams.has(ws[k].as_str(), h) {
                    in_all = false;
                }
                k = k + 1;
            }
            let hit = match self.names.get(&h) {
                Some(name) => in_all && if short {
                    str_starts_with(name.as_str(), q.as_str())
                } else {
                    str_contains(name.as_str(), q.as_str())
                },
                None => false,
            };
            proof {
                if self@.contains_key(h) && query_matches(q@, self@[h]) && !in_all {
                    let m = choose|m: int| 0 <= m < ws@.len() && !self.grams.members((#[trigger] ws@[m])@).contains(h);
                    assert(is_window(q@, ws@[m]@));
                    lemma_substring_trans(self@[h], q@, ws@[m]@);
                    assert(is_window(self.names@[h]@, ws@[m]@));
                    assert(false);
                }
                assert(hit == (self@.contains_key(h) && query_matches(q@, self@[h])));
                if kept@.contains(h) {
                    let j = choose|j: int| 0 <= j < i && cands@[j] == h;
                    assert(cands@[j] == cands@[i as int]);
                }
            }
            let ghost before = kept@;
            if hit {
                kept.push(h);
            }
            proof {
                assert forall|x: usize| kept@.contains(x) <==> (self@.contains_key(x) && query_matches(
                    q@,
                    self@[x],
                ) && exists|j: int| 0 <= j < i + 1 && cands@[j] == x) by {
                    if kept@.contains(x) {
                        let m = choose|m: int| 0 <= m < kept@.len() && kept@[m] == x;
                        if m < before.len() {
                            assert(before[m] == x);
                            assert(before.contains(x));
                        } else {
                            assert(x == h);
                            assert(cands@[i as int] == x);
                        }
                    }
                    if self@.contains_key(x) && query_matches(q@, self@[x]) && exists|j: int|
                        0 <= j < i + 1 && cands@[j] == x {
                        let j = choose|j: int| 0 <= j < i + 1 && cands@[j] == x;
                        if j < i {
                            assert(before.contains(x));
                            let m = choose|m: int| 0 <= m < before.len() && before[m] == x;
                            assert(kept@[m] == x);
                        } else {
                            assert(hit);
                            assert(kept@[before.len() as int] == x);
                        }
                    }
                }
            }
            i = i + 1;
        }
        let sorted = sort_handles(&kept);
        let out = as_node_ids(&sorted);
        proof {
            assert forall|n: int| 0 <= n < out@.len() implies self@.contains_key((#[trigger] out@[n]).raw)
                && query_matches(lowercase(query@), self@[out@[n].raw]) by {
                assert(sorted@.to_set().contains(sorted@[n]));
                assert(kept@.contains(sorted@[n]));
            }
            assert forall|h: usize| self@.contains_key(h) && query_matches(lowercase(query@), self@[h])
                implies exists|n: int| 0 <= n < out@.len() && (#[trigger] out@[n]).raw == h by {
                assert(self.names@.contains_key(h));
                if short {
                    assert(is_head(self.names@[h]@, q@));
                    assert(self.heads.members(q@).contains(h));
                } else {
                    lemma_substring_trans(self@[h], q@, ws@[0]@);
                    assert(is_window(self.names@[h]@, ws@[0]@));
                    assert(self.grams.members(ws@[0]@).contains(h));
                }
                assert(cands@.to_set().contains(h));
                assert(cands@.contains(h));
                let j = choose|j: int| 0 <= j < cands@.len() && cands@[j] == h;
                assert(0 <= j < i && cands@[j] == h);
                assert(kept@.contains(h));
                assert(kept@.to_set().contains(h));
                assert(sorted@.to_set().contains(h));
                assert(sorted@.contains(h));
                let n = choose|n: int| 0 <= n < sorted@.len() && sorted@[n] == h;
                assert(out@[n].raw == h);
            }
        }
        out
    }

    /// How many distinct names the index holds.
    pub fn len(&self) -> (n: usize)
        ensures
            n == self.names_in_use().len(),
    {
        self.exact.len()
    }

    /// Whether the index holds no name.
    pub fn is_empty(&self) -> (empty: bool)
        ensures
            empty == (self.names_in_use().len() == 0),
    {
        self.exact.len() == 0
    }
}

} // verus!
