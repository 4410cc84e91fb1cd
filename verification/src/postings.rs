//! Posting lists: for each string key, the set of node handles filed under it.

use vstd::prelude::*;
use vstd::hash_map::StringHashMap;
use vstd::string::*;

verus! {

/// A copy of `list` without `h`.
pub fn list_without(list: &Vec<usize>, h: usize) -> (out: Vec<usize>)
    requires
        list@.no_duplicates(),
    ensures
        out@.no_duplicates(),
        out@.to_set() == list@.to_set().remove(h),
{
    let mut out: Vec<usize> = Vec::new();
    let mut i: usize = 0;
    while i < list.len()
        invariant
            i <= list.len(),
            list@.no_duplicates(),
            out@.no_duplicates(),
            forall|x: usize| out@.contains(x) <==> (x != h && exists|j: int| 0 <= j < i && list@[j] == x),
        decreases list.len() - i,
    {
        let x = list[i];
        if x != h {
            proof {
                if out@.contains(x) {
                    let j = choose|j: int| 0 <= j < i && list@[j] == x;
                    assert(list@[j] == list@[i as int]);
                }
            }
            let ghost before = out@;
            out.push(x);
            assert forall|y: usize| out@.contains(y) <==> (y != h && exists|j: int|
                0 <= j < i + 1 && list@[j] == y) by {
                if out@.contains(y) {
                    let k = choose|k: int| 0 <= k < out@.len() && out@[k] == y;
                    if k < before.len() {
                        assert(before[k] == y);
                        assert(before.contains(y));
                    } else {
                        assert(list@[i as int] == y);
                    }
                }
                if y != h && exists|j: int| 0 <= j < i + 1 && list@[j] == y {
                    let j = choose|j: int| 0 <= j < i + 1 && list@[j] == y;
                    if j < i {
                        assert(before.contains(y));
                        let k = choose|k: int| 0 <= k < before.len() && before[k] == y;
                        assert(out@[k] == y);
                    } else {
                        assert(out@[before.len() as int] == y);
                    }
                }
            }
        }
        i = i + 1;
    }
    proof {
        assert forall|x: usize| out@.to_set().contains(x) <==> list@.to_set().remove(h).contains(
            x,
        ) by {
            if list@.contains(x) {
                let j = choose|j: int| 0 <= j < list@.len() && list@[j] == x;
                assert(0 <= j < i && list@[j] == x);
            }
        }
        assert(out@.to_set() =~= list@.to_set().remove(h));
    }
    out
}

/// Whether `list` holds `h`.
pub fn list_contains(list: &Vec<usize>, h: usize) -> (found: bool)
    ensures
        found == list@.contains(h),
{
    let mut i: usize = 0;
    while i < list.len()
        invariant
            i <= list.len(),
            forall|j: int| 0 <= j < i ==> list@[j] != h,
        decreases list.len() - i,
    {
        if list[i] == h {
            return true;
        }
        i = i + 1;
    }
    false
}

/// A copy of `list`.
pub fn list_copy(list: &Vec<usize>) -> (out: Vec<usize>)
    ensures
        out@ == list@,
{
    let mut out: Vec<usize> = Vec::new();
    let mut i: usize = 0;
    while i < list.len()
        invariant
            i <= list.len(),
            out@ == list@.subrange(0, i as int),
        decreases list.len() - i,
    {
        out.push(list[i]);
        i = i + 1;
        assert(out@ =~= list@.subrange(0, i as int));
    }
    assert(list@.subrange(0, list@.len() as int) =~= list@);
    out
}

/// A map from string keys to sets of node handles.
pub struct PostingMap {
    map: StringHashMap<Vec<usize>>,
}

impl PostingMap {
    /// Every stored list is non-empty and holds no handle twice.
    pub closed spec fn wf(&self) -> bool {
        forall|key: Seq<char>| #[trigger]
            self.map@.contains_key(key) ==> self.map@[key]@.len() > 0
                && self.map@[key]@.no_duplicates()
    }

    /// The handles filed under `key`.
    pub closed spec fn members(&self, key: Seq<char>) -> Set<usize> {
        if self.map@.contains_key(key) {
            self.map@[key]@.to_set()
        } else {
            Set::empty()
        }
    }

    /// The keys under which some handle is filed.
    pub closed spec fn keys(&self) -> Set<Seq<char>> {
        self.map@.dom()
    }

    /// A key is in use exactly when some handle is filed under it, and every
    /// posting set is finite.
    pub proof fn lemma_keys(&self, key: Seq<char>)
        requires
            self.wf(),
        ensures
            self.keys().contains(key) <==> self.members(key).len() > 0,
            self.keys().contains(key) <==> exists|h: usize| self.members(key).contains(h),
            self.members(key).finite(),
    {
        if self.map@.contains_key(key) {
            let list = self.map@[key]@;
            vstd::seq_lib::seq_to_set_is_finite(list);
            assert(list.to_set().contains(list[0]));
            list.unique_seq_to_set();
        } else {
            assert(self.members(key) =~= Set::empty());
        }
    }

    pub fn new() -> (out: PostingMap)
        ensures
            out.wf(),
            out.keys() == Set::<Seq<char>>::empty(),
            forall|key: Seq<char>| out.members(key) == Set::<usize>::empty(),
    {
        let out = PostingMap { map: StringHashMap::new() };
        assert(out.keys() =~= Set::<Seq<char>>::empty());
        out
    }

    /// How many keys are in use.
    pub fn len(&self) -> (n: usize)
        ensures
            n == self.keys().len(),
    {
        broadcast use vstd::hash_map::group_hash_map_axioms;

        self.map.len()
    }

    /// The handles filed under `key`, each once.
    pub fn get(&self, key: &str) -> (out: Vec<usize>)
        requires
            self.wf(),
        ensures
            out@.no_duplicates(),
            out@.to_set() == self.members(key@),
    {
        match self.map.get(key) {
            Some(list) => list_copy(list),
            None => {
                let out: Vec<usize> = Vec::new();
                assert(out@.to_set() =~= Set::<usize>::empty());
                out
            },
        }
    }

    /// Whether `h` is filed under `key`.
    pub fn has(&self, key: &str, h: usize) -> (found: bool)
        requires
            self.wf(),
        ensures
            found == self.members(key@).contains(h),
    {
        match self.map.get(key) {
            Some(list) => list_contains(list, h),
            None => false,
        }
    }

    /// Files `h` under `key`.
    pub fn add(&mut self, key: &str, h: usize)
        requires
            old(self).wf(),
        ensures
            final(self).wf(),
            final(self).members(key@) == old(self).members(key@).insert(h),
            forall|other: Seq<char>| other != key@ ==> final(self).members(other) == old(self).members(other),
            final(self).keys() == old(self).keys().insert(key@),
    {
        let mut list = match self.map.get(key) {
            Some(list) => list_copy(list),
            None => Vec::new(),
        };
        let ghost before = list@;
        assert(before.to_set() =~= old(self).members(key@));
        if !list_contains(&list, h) {
            list.push(h);
            assert(list@.to_set() =~= before.to_set().insert(h)) by {
                assert forall|x: usize| list@.to_set().contains(x) <==> before.to_set().insert(
                    h,
                ).contains(x) by {
                    if list@.contains(x) {
                        let k = choose|k: int| 0 <= k < list@.len() && list@[k] == x;
                        if k < before.len() {
                            assert(before[k] == x);
                        }
                    }
                    if before.contains(x) {
                        let k = choose|k: int| 0 <= k < before.len() && before[k] == x;
                        assert(list@[k] == x);
                    }
                    if x == h {
                        assert(list@[before.len() as int] == h);
                    }
                }
            }
            assert(list@.no_duplicates());
        } else {
            assert(list@.to_set() =~= before.to_set().insert(h));
        }
        self.map.insert(String::from_str(key), list);
        assert(final(self).keys() =~= old(self).keys().insert(key@));
    }

    /// Takes `h` out from under `key`.
    pub fn remove(&mut self, key: &str, h: usize)
        requires
            old(self).wf(),
        ensures
            final(self).wf(),
            final(self).members(key@) == old(self).members(key@).remove(h),
            forall|other: Seq<char>| other != key@ ==> final(self).members(other) == old(self).members(other),
            final(self).keys().subset_of(old(self).keys()),
            forall|other: Seq<char>| other != key@ ==> (final(self).keys().contains(other) <==> old(self).keys().contains(other)),
    {
        let rest = match self.map.get(key) {
            Some(list) => list_without(list, h),
            None => {
                assert(old(self).members(key@).remove(h) =~= Set::<usize>::empty());
                return ;
            },
        };
        if rest.len() == 0 {
            self.map.remove(key);
            assert(rest@.to_set() =~= Set::<usize>::empty());
        } else {
            self.map.insert(String::from_str(key), rest);
        }
    }

    /// Takes every handle out from under `key` and returns them, each once.
    pub fn take(&mut self, key: &str) -> (out: Vec<usize>)
        requires
            old(self).wf(),
        ensures
            final(self).wf(),
            out@.no_duplicates(),
            out@.to_set() == old(self).members(key@),
            final(self).members(key@) == Set::<usize>::empty(),
            forall|other: Seq<char>| other != key@ ==> final(self).members(other) == old(self).members(other),
            final(self).keys() == old(self).keys().remove(key@),
    {
        let out = self.get(key);
        self.map.remove(key);
        assert(final(self).keys() =~= old(self).keys().remove(key@));
        out
    }
}

} // verus!
