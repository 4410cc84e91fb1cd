//! Which files the indexer watches, and when a change to one has settled.
//!
//! An editor that saves a file may write it several times within a few
//! milliseconds. The debouncer remembers when each path was last seen to
//! change and hands a path on only once it has been quiet for the debounce
//! time.

use vstd::prelude::*;
use vstd::string::*;
use crate::text::{follows_dot, lists_text, path_extension, str_eq};

verus! {

/// Whether `ext` is an extension and is one of `extensions`, letter for
/// letter.
pub open spec fn is_listed(ext: Option<Seq<char>>, extensions: Seq<String>) -> bool {
    match ext {
        Some(e) => lists_text(extensions, e),
        None => false,
    }
}

/// Whether a file with the extension `ext`, if it has one, is one the
/// indexer reads: whether the extension is one of `extensions`. Case counts,
/// and a file without an extension is never read.
pub fn extension_listed(ext: Option<&str>, extensions: &Vec<String>) -> (out: bool)
    ensures
        out == is_listed(
            match ext {
                Some(e) => Some(e@),
                None => None,
            },
            extensions@,
        ),
{
    let wanted = match ext {
        Some(e) => e,
        None => {
            return false;
        },
    };
    let mut i: usize = 0;
    while i < extensions.len()
        invariant
            i <= extensions.len(),
            ext == Some(wanted),
            forall|k: int| 0 <= k < i ==> (#[trigger] extensions@[k])@ != wanted@,
        decreases extensions.len() - i,
    {
        if str_eq(extensions[i].as_str(), wanted) {
            proof {
                assert(extensions@[i as int]@ == wanted@);
                assert(lists_text(extensions@, wanted@));
            }
            return true;
        }
        i = i + 1;
    }
    false
}

/// Whether the file at `path` is one the indexer reads: whether the
/// extension of its final component is one of `extensions`. What the final
/// component of a path is, the platform decides; on every platform a file
/// is read only if one of `extensions` follows a dot in its path.
pub fn should_process_file(path: &str, extensions: &Vec<String>) -> (out: bool)
    ensures
        out ==> exists|i: int| 0 <= i < extensions@.len() && follows_dot(path@, (#[trigger] extensions@[i])@),
{
    match path_extension(path) {
        Some(ext) => {
            let out = extension_listed(Some(ext.as_str()), extensions);
            proof {
                if out {
                    let k = choose|k: int| 0 <= k < extensions@.len() && (#[trigger] extensions@[k])@ == ext@;
                    assert(follows_dot(path@, extensions@[k]@));
                }
            }
            out
        },
        None => false,
    }
}

/// What the watcher saw happen to a file.
#[derive(Debug)]
pub enum WatcherEvent {
    Changed(String),
    Created(String),
    Deleted(String),
}

/// The event for a path whose change has settled: a deletion if the path is
/// gone, a change otherwise.
pub fn promote(path: String, exists: bool) -> (out: WatcherEvent)
    ensures
        out == (if exists {
            WatcherEvent::Changed(path)
        } else {
            WatcherEvent::Deleted(path)
        }),
{
    if exists {
        WatcherEvent::Changed(path)
    } else {
        WatcherEvent::Deleted(path)
    }
}

/// Whether a path last seen at `last_seen` has settled at `now`: whether it
/// has been quiet for at least `debounce_ms`.
pub open spec fn settled(last_seen: u64, now: u64, debounce_ms: u64) -> bool {
    if now >= last_seen {
        now - last_seen >= debounce_ms
    } else {
        debounce_ms == 0
    }
}

/// The default debounce time, in milliseconds.
pub const DEFAULT_DEBOUNCE_MS: u64 = 150;

/// The longest the watcher waits between two looks at the pending paths, in
/// milliseconds.
pub const WAKE_TICK_MS: u64 = 50;

/// One of the first `n` strings of `list` reads `p`.
pub open spec fn among_first(list: Seq<String>, n: int, p: Seq<char>) -> bool {
    exists|k: int| 0 <= k < n && k < list.len() && (#[trigger] list[k])@ == p
}

/// No two strings of `list` read the same.
pub open spec fn distinct_texts(list: Seq<String>) -> bool {
    forall|i: int, j: int| 0 <= i < j < list.len() ==> list[i]@ != list[j]@
}

/// A list with one more string lists what it listed before, and that string.
pub proof fn lemma_lists_push(list: Seq<String>, x: String, p: Seq<char>)
    ensures
        lists_text(list.push(x), p) <==> lists_text(list, p) || x@ == p,
{
    let longer = list.push(x);
    if lists_text(longer, p) {
        let k = choose|k: int| 0 <= k < longer.len() && (#[trigger] longer[k])@ == p;
        if k < list.len() {
            assert(list[k]@ == p);
        }
    }
    if lists_text(list, p) {
        let k = choose|k: int| 0 <= k < list.len() && (#[trigger] list[k])@ == p;
        assert(longer[k]@ == p);
    }
    if x@ == p {
        assert(longer[list.len() as int]@ == p);
    }
}

/// The first `n + 1` strings are the first `n` and the one after them.
pub proof fn lemma_among_next(list: Seq<String>, n: int, p: Seq<char>)
    requires
        0 <= n < list.len(),
    ensures
        among_first(list, n + 1, p) <==> among_first(list, n, p) || list[n]@ == p,
{
    if among_first(list, n + 1, p) {
        let k = choose|k: int| 0 <= k < n + 1 && k < list.len() && (#[trigger] list[k])@ == p;
        if k < n {
            assert(among_first(list, n, p));
        }
    }
    if among_first(list, n, p) {
        let k = choose|k: int| 0 <= k < n && k < list.len() && (#[trigger] list[k])@ == p;
        assert(0 <= k < n + 1 && list[k]@ == p);
    }
    if list[n]@ == p {
        assert(0 <= n < n + 1 && list[n]@ == p);
    }
}

/// The paths that were seen to change and have not settled yet.
pub struct Debouncer {
    last_seen: vstd::hash_map::StringHashMap<u64>,
    order: Vec<String>,
    debounce_ms: u64,
}

impl View for Debouncer {
    type V = Map<Seq<char>, u64>;

    /// When each pending path was last seen to change, in milliseconds on
    /// the watcher's clock.
    closed spec fn view(&self) -> Map<Seq<char>, u64> {
        self.last_seen@
    }
}

impl Debouncer {
    /// The list of pending paths agrees with the times kept for them.
    pub closed spec fn wf(&self) -> bool {
        &&& distinct_texts(self.order@)
        &&& forall|p: Seq<char>|
            #![trigger self.last_seen@.contains_key(p)]
            #![trigger lists_text(self.order@, p)]
            self.last_seen@.contains_key(p) <==> lists_text(self.order@, p)
    }

    /// The debounce time, in milliseconds.
    pub closed spec fn quiet_time(&self) -> u64 {
        self.debounce_ms
    }

    /// A debouncer with no pending path.
    pub fn new(debounce_ms: u64) -> (out: Debouncer)
        ensures
            out.wf(),
            out.quiet_time() == debounce_ms,
            out@ == Map::<Seq<char>, u64>::empty(),
    {
        Debouncer { last_seen: vstd::hash_map::StringHashMap::new(), order: Vec::new(), debounce_ms }
    }

    /// Whether no path is pending.
    pub fn is_idle(&self) -> (idle: bool)
        requires
            self.wf(),
        ensures
            idle == (self@ == Map::<Seq<char>, u64>::empty()),
    {
        proof {
            if self.order@.len() > 0 {
                assert(lists_text(self.order@, self.order@[0]@));
                assert(self@.contains_key(self.order@[0]@));
            } else {
                assert forall|p: Seq<char>| !self@.contains_key(p) by {
                    if self.last_seen@.contains_key(p) {
                        assert(lists_text(self.order@, p));
                    }
                }
                assert(self@ =~= Map::<Seq<char>, u64>::empty());
            }
        }
        self.order.len() == 0
    }

    /// Notes that `path` was seen to change at `now`.
    pub fn record(&mut self, path: &str, now: u64)
        requires
            old(self).wf(),
        ensures
            final(self).wf(),
            final(self).quiet_time() == old(self).quiet_time(),
            final(self)@ == old(self)@.insert(path@, now),
    {
        if !self.last_seen.contains_key(path) {
            let ghost before = self.order@;
            let owned = String::from_str(path);
            self.order.push(owned);
            proof {
                assert forall|p: Seq<char>|
                    #![trigger lists_text(self.order@, p)]
                    lists_text(self.order@, p) <==> lists_text(before, p) || p == path@ by {
                    lemma_lists_push(before, owned, p);
                }
                assert forall|i: int, j: int| 0 <= i < j < self.order@.len() implies self.order@[i]@
                    != self.order@[j]@ by {
                    if j == before.len() {
                        assert(lists_text(before, before[i]@));
                    }
                }
            }
        }
        let ghost listed = self.order@;
        let ghost map0 = self.last_seen@;
        self.last_seen.insert(String::from_str(path), now);
        proof {
            assert(lists_text(listed, path@));
            assert forall|p: Seq<char>|
                #![trigger self.last_seen@.contains_key(p)]
                #![trigger lists_text(self.order@, p)]
                self.last_seen@.contains_key(p) <==> lists_text(self.order@, p) by {
                if p != path@ {
                    assert(map0.contains_key(p) <==> old(self).last_seen@.contains_key(p));
                    assert(old(self).last_seen@.contains_key(p) <==> lists_text(old(self).order@, p));
                }
            }
        }
    }

    /// Hands on the paths that have settled at `now`, each once, and forgets
    /// them. The others stay pending.
    pub fn drain_ready(&mut self, now: u64) -> (out: Vec<String>)
        requires
            old(self).wf(),
        ensures
            final(self).wf(),
            final(self).quiet_time() == old(self).quiet_time(),
            forall|p: Seq<char>|
                lists_text(out@, p) <==> old(self)@.contains_key(p) && settled(old(self)@[p], now, old(self).quiet_time()),
            distinct_texts(out@),
            forall|p: Seq<char>|
                final(self)@.contains_key(p) <==> old(self)@.contains_key(p) && !settled(
                    old(self)@[p],
                    now,
                    old(self).quiet_time(),
                ),
            forall|p: Seq<char>| final(self)@.contains_key(p) ==> final(self)@[p] == old(self)@[p],
    {
        let ghost was = old(self)@;
        let ghost order = self.order@;
        let debounce = self.debounce_ms;
        let mut keep: Vec<String> = Vec::new();
        let mut out: Vec<String> = Vec::new();
        let mut i: usize = 0;
        while i < self.order.len()
            invariant
                i <= self.order.len(),
                self.order@ == order,
                self.debounce_ms == debounce,
                distinct_texts(order),
                was == old(self)@,
                debounce == old(self).quiet_time(),
                forall|p: Seq<char>|
                    #![trigger was.contains_key(p)]
                    #![trigger lists_text(order, p)]
                    was.contains_key(p) <==> lists_text(order, p),
                forall|p: Seq<char>| #[trigger]
                    self.last_seen@.contains_key(p) <==> was.contains_key(p) && !(among_first(order, i as int, p)
                        && settled(was[p], now, debounce)),
                forall|p: Seq<char>| #[trigger] self.last_seen@.contains_key(p) ==> self.last_seen@[p] == was[p],
                forall|p: Seq<char>| #[trigger]
                    lists_text(out@, p) <==> among_first(order, i as int, p) && settled(was[p], now, debounce),
                forall|p: Seq<char>| #[trigger]
                    lists_text(keep@, p) <==> among_first(order, i as int, p) && !settled(was[p], now, debounce),
                distinct_texts(out@),
                distinct_texts(keep@),
            decreases self.order.len() - i,
        {
            let path = self.order[i].clone();
            let ghost out0 = out@;
            let ghost keep0 = keep@;
            let ghost map0 = self.last_seen@;
            proof {
                assert(lists_text(order, path@));
                assert(was.contains_key(path@));
                if among_first(order, i as int, path@) {
                    let k = choose|k: int| 0 <= k < i && k < order.len() && (#[trigger] order[k])@ == path@;
                    assert(order[k]@ != order[i as int]@);
                }
                assert(map0.contains_key(path@));
            }
            let seen = match self.last_seen.get(path.as_str()) {
                Some(t) => *t,
                None => 0,
            };
            let quiet = if now >= seen {
                now - seen >= debounce
            } else {
                debounce == 0
            };
            if quiet {
                self.last_seen.remove(path.as_str());
                out.push(path);
            } else {
                keep.push(path);
            }
            proof {
                assert(seen == was[path@]);
                assert(quiet == settled(was[path@], now, debounce));
                assert forall|p: Seq<char>| #[trigger]
                    self.last_seen@.contains_key(p) <==> was.contains_key(p) && !(among_first(
                        order,
                        i + 1,
                        p,
                    ) && settled(was[p], now, debounce)) by {
                    lemma_among_next(order, i as int, p);
                    assert(map0.contains_key(p) <==> was.contains_key(p) && !(among_first(order, i as int, p)
                        && settled(was[p], now, debounce)));
                }
                assert forall|p: Seq<char>| #[trigger] self.last_seen@.contains_key(p) implies self.last_seen@[p]
                    == was[p] by {
                    assert(map0.contains_key(p));
                }
                assert forall|p: Seq<char>| #[trigger]
                    lists_text(out@, p) <==> among_first(order, i + 1, p) && settled(was[p], now, debounce) by {
                    lemma_among_next(order, i as int, p);
                    assert(lists_text(out0, p) <==> among_first(order, i as int, p) && settled(was[p], now, debounce));
                    if quiet {
                        lemma_lists_push(out0, path, p);
                    }
                }
                assert forall|p: Seq<char>| #[trigger]
                    lists_text(keep@, p) <==> among_first(order, i + 1, p) && !settled(was[p], now, debounce) by {
                    lemma_among_next(order, i as int, p);
                    assert(lists_text(keep0, p) <==> among_first(order, i as int, p) && !settled(was[p], now, debounce));
                    if !quiet {
                        lemma_lists_push(keep0, path, p);
                    }
                }
                assert(distinct_texts(out@)) by {
                    assert forall|a: int, b: int| 0 <= a < b < out@.len() implies out@[a]@ != out@[b]@ by {
                        if quiet && b == out0.len() {
                            assert(lists_text(out0, out0[a]@));
                        }
                    }
                }
                assert(distinct_texts(keep@)) by {
                    assert forall|a: int, b: int| 0 <= a < b < keep@.len() implies keep@[a]@ != keep@[b]@ by {
                        if !quiet && b == keep0.len() {
                            assert(lists_text(keep0, keep0[a]@));
                        }
                    }
                }
            }
            i = i + 1;
        }
        let ghost kept = keep@;
        self.order = keep;
        proof {
            let n = order.len() as int;
            assert forall|p: Seq<char>| among_first(order, n, p) <==> lists_text(order, p) by {
                if lists_text(order, p) {
                    let k = choose|k: int| 0 <= k < order.len() && (#[trigger] order[k])@ == p;
                    assert(0 <= k < n && k < order.len() && order[k]@ == p);
                }
                if among_first(order, n, p) {
                    let k = choose|k: int| 0 <= k < n && k < order.len() && (#[trigger] order[k])@ == p;
                    assert(order[k]@ == p);
                }
            }
            assert forall|p: Seq<char>|
                lists_text(out@, p) <==> was.contains_key(p) && settled(was[p], now, debounce) by {
                assert(lists_text(out@, p) <==> among_first(order, n, p) && settled(was[p], now, debounce));
                assert(among_first(order, n, p) <==> lists_text(order, p));
                assert(was.contains_key(p) <==> lists_text(order, p));
            }
            assert forall|p: Seq<char>|
                self.last_seen@.contains_key(p) <==> was.contains_key(p) && !settled(was[p], now, debounce) by {
                assert(self.last_seen@.contains_key(p) <==> was.contains_key(p) && !(among_first(order, n, p)
                    && settled(was[p], now, debounce)));
                assert(among_first(order, n, p) <==> lists_text(order, p));
                assert(was.contains_key(p) <==> lists_text(order, p));
            }
            assert forall|p: Seq<char>|
                #![trigger self.last_seen@.contains_key(p)]
                #![trigger lists_text(self.order@, p)]
                self.last_seen@.contains_key(p) <==> lists_text(self.order@, p) by {
                assert(lists_text(kept, p) <==> among_first(order, n, p) && !settled(was[p], now, debounce));
                assert(self.last_seen@.contains_key(p) <==> was.contains_key(p) && !(among_first(order, n, p)
                    && settled(was[p], now, debounce)));
                assert(among_first(order, n, p) <==> lists_text(order, p));
                assert(was.contains_key(p) <==> lists_text(order, p));
            }
        }
        out
    }
}

} // verus!
