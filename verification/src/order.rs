//! Sorting handles.

use vstd::prelude::*;

verus! {

/// Each element of `s` is smaller than the next.
pub open spec fn ascending(s: Seq<usize>) -> bool {
    forall|i: int, j: int| 0 <= i < j < s.len() ==> s[i] < s[j]
}

/// The handles of `list` in ascending order.
pub fn sort_handles(list: &Vec<usize>) -> (out: Vec<usize>)
    requires
        list@.no_duplicates(),
    ensures
        ascending(out@),
        out@.to_set() == list@.to_set(),
        out@.len() == list@.len(),
{
    let mut out: Vec<usize> = Vec::new();
    let mut i: usize = 0;
    while i < list.len()
        invariant
            i <= list.len(),
            list@.no_duplicates(),
            ascending(out@),
            out@.len() == i,
            forall|x: usize| out@.contains(x) <==> exists|j: int| 0 <= j < i && list@[j] == x,
        decreases list.len() - i,
    {
        let x = list[i];
        proof {
            if out@.contains(x) {
                let j = choose|j: int| 0 <= j < i && list@[j] == x;
                assert(list@[j] == list@[i as int]);
            }
        }
        let mut pos: usize = 0;
        while pos < out.len() && out[pos] < x
            invariant
                pos <= out.len(),
                forall|k: int| 0 <= k < pos ==> out@[k] < x,
            decreases out.len() - pos,
        {
            pos = pos + 1;
        }
        let ghost before = out@;
        proof {
            if pos < before.len() {
                assert(before.contains(before[pos as int]));
                assert(before[pos as int] != x);
            }
        }
        out.insert(pos, x);
        proof {
            assert forall|a: int, b: int| 0 <= a < b < out@.len() implies out@[a] < out@[b] by {
                let a0 = if a < pos { a } else { a - 1 };
                let b0 = if b < pos { b } else { b - 1 };
                if a == pos {
                    assert(out@[b] == before[b0]);
                    assert(before[pos as int] <= before[b0]);
                } else if b == pos {
                    assert(out@[a] == before[a0]);
                } else {
                    assert(out@[a] == before[a0]);
                    assert(out@[b] == before[b0]);
                }
            }
            assert forall|y: usize| out@.contains(y) <==> exists|j: int|
                0 <= j < i + 1 && list@[j] == y by {
                if out@.contains(y) {
                    let k = choose|k: int| 0 <= k < out@.len() && out@[k] == y;
                    if k == pos {
                        assert(list@[i as int] == y);
                    } else {
                        let k0 = if k < pos { k } else { k - 1 };
                        assert(before[k0] == y);
                        assert(before.contains(y));
                    }
                }
                if exists|j: int| 0 <= j < i + 1 && list@[j] == y {
                    let j = choose|j: int| 0 <= j < i + 1 && list@[j] == y;
                    if j < i {
                        assert(before.contains(y));
                        let k0 = choose|k0: int| 0 <= k0 < before.len() && before[k0] == y;
                        let k = if k0 < pos { k0 } else { k0 + 1 };
                        assert(out@[k] == y);
                    } else {
                        assert(out@[pos as int] == y);
                    }
                }
            }
        }
        i = i + 1;
    }
    proof {
        assert forall|x: usize| out@.to_set().contains(x) <==> list@.to_set().contains(x) by {
            if list@.contains(x) {
                let j = choose|j: int| 0 <= j < list@.len() && list@[j] == x;
                assert(0 <= j < i && list@[j] == x);
            }
        }
        assert(out@.to_set() =~= list@.to_set());
    }
    out
}

/// A node's distance, score and handle.
pub type Placed = (usize, u64, usize);

/// `a` comes before `b`: it is nearer; or as near and has the higher score;
/// or as near with the same score and has the smaller handle.
pub open spec fn comes_before(a: Placed, b: Placed) -> bool {
    a.0 < b.0 || (a.0 == b.0 && (a.1 > b.1 || (a.1 == b.1 && a.2 < b.2)))
}

/// Each element of `s` comes before the next.
pub open spec fn in_sequence(s: Seq<Placed>) -> bool {
    forall|i: int, j: int| 0 <= i < j < s.len() ==> comes_before(s[i], s[j])
}

/// No two elements of `s` have the same handle.
pub open spec fn distinct_places(s: Seq<Placed>) -> bool {
    forall|i: int, j: int| 0 <= i < j < s.len() ==> s[i].2 != s[j].2
}

/// The elements of `list` in sequence: nearest first, of equally near ones
/// the highest score first, and of equal scores the smaller handle first.
pub fn sort_by_place(list: &Vec<Placed>) -> (out: Vec<Placed>)
    requires
        distinct_places(list@),
    ensures
        in_sequence(out@),
        out@.len() == list@.len(),
        forall|x: Placed| out@.contains(x) <==> list@.contains(x),
{
    let mut out: Vec<Placed> = Vec::new();
    let mut i: usize = 0;
    while i < list.len()
        invariant
            i <= list.len(),
            distinct_places(list@),
            in_sequence(out@),
            out@.len() == i,
            forall|x: Placed| out@.contains(x) <==> exists|j: int| 0 <= j < i && list@[j] == x,
        decreases list.len() - i,
    {
        let x = list[i];
        proof {
            if out@.contains(x) {
                let j = choose|j: int| 0 <= j < i && list@[j] == x;
                assert(list@[j].2 == list@[i as int].2);
            }
        }
        let mut pos: usize = 0;
        while pos < out.len() && (out[pos].0 < x.0 || (out[pos].0 == x.0 && (out[pos].1 > x.1 || (out[pos].1
            == x.1 && out[pos].2 < x.2))))
            invariant
                pos <= out.len(),
                forall|k: int| 0 <= k < pos ==> comes_before(out@[k], x),
            decreases out.len() - pos,
        {
            pos = pos + 1;
        }
        let ghost before = out@;
        proof {
            if pos < before.len() {
                assert(before.contains(before[pos as int]));
                let j = choose|j: int| 0 <= j < i && list@[j] == before[pos as int];
                assert(list@[j].2 != list@[i as int].2);
                assert(comes_before(x, before[pos as int]));
            }
        }
        out.insert(pos, x);
        proof {
            assert forall|a: int, b: int| 0 <= a < b < out@.len() implies comes_before(out@[a], out@[b]) by {
                let a0 = if a < pos { a } else { a - 1 };
                let b0 = if b < pos { b } else { b - 1 };
                if a == pos {
                    assert(out@[b] == before[b0]);
                    if b0 > pos {
                        assert(comes_before(before[pos as int], before[b0]));
                    }
                } else if b == pos {
                    assert(out@[a] == before[a0]);
                } else {
                    assert(out@[a] == before[a0]);
                    assert(out@[b] == before[b0]);
                }
            }
            assert forall|y: Placed| out@.contains(y) <==> exists|j: int|
                0 <= j < i + 1 && list@[j] == y by {
                if out@.contains(y) {
                    let k = choose|k: int| 0 <= k < out@.len() && out@[k] == y;
                    if k == pos {
                        assert(list@[i as int] == y);
                    } else {
                        let k0 = if k < pos { k } else { k - 1 };
                        assert(before[k0] == y);
                        assert(before.contains(y));
                    }
                }
                if exists|j: int| 0 <= j < i + 1 && list@[j] == y {
                    let j = choose|j: int| 0 <= j < i + 1 && list@[j] == y;
                    if j < i {
                        assert(before.contains(y));
                        let k0 = choose|k0: int| 0 <= k0 < before.len() && before[k0] == y;
                        let k = if k0 < pos { k0 } else { k0 + 1 };
                        assert(out@[k] == y);
                    } else {
                        assert(out@[pos as int] == y);
                    }
                }
            }
        }
        i = i + 1;
    }
    proof {
        assert forall|x: Placed| out@.contains(x) <==> list@.contains(x) by {
            if list@.contains(x) {
                let j = choose|j: int| 0 <= j < list@.len() && list@[j] == x;
                assert(0 <= j < i && list@[j] == x);
            }
        }
    }
    out
}

/// A node's score and handle.
pub type Scored = (u64, usize);

/// `a` ranks before `b`: it has the higher score, or the same score and the
/// smaller handle.
pub open spec fn ranks_before(a: Scored, b: Scored) -> bool {
    a.0 > b.0 || (a.0 == b.0 && a.1 < b.1)
}

/// Each element of `s` ranks before the next.
pub open spec fn ranked(s: Seq<Scored>) -> bool {
    forall|i: int, j: int| 0 <= i < j < s.len() ==> ranks_before(s[i], s[j])
}

/// No two elements of `s` have the same handle.
pub open spec fn distinct_handles(s: Seq<Scored>) -> bool {
    forall|i: int, j: int| 0 <= i < j < s.len() ==> s[i].1 != s[j].1
}

/// The elements of `list` by rank: highest score first, and of equal scores
/// the smaller handle first.
pub fn sort_by_score(list: &Vec<Scored>) -> (out: Vec<Scored>)
    requires
        distinct_handles(list@),
    ensures
        ranked(out@),
        out@.len() == list@.len(),
        forall|x: Scored| out@.contains(x) <==> list@.contains(x),
{
    let mut placed: Vec<Placed> = Vec::new();
    let mut i: usize = 0;
    while i < list.len()
        invariant
            i <= list.len(),
            placed@.len() == i,
            forall|k: int| 0 <= k < i ==> #[trigger] placed@[k] == (0usize, list@[k].0, list@[k].1),
        decreases list.len() - i,
    {
        placed.push((0, list[i].0, list[i].1));
        i = i + 1;
    }
    let sorted = sort_by_place(&placed);
    let mut out: Vec<Scored> = Vec::new();
    let mut j: usize = 0;
    while j < sorted.len()
        invariant
            j <= sorted.len(),
            out@.len() == j,
            forall|k: int| 0 <= k < j ==> #[trigger] out@[k] == (sorted@[k].1, sorted@[k].2),
        decreases sorted.len() - j,
    {
        out.push((sorted[j].1, sorted[j].2));
        j = j + 1;
    }
    proof {
        assert forall|k: int| 0 <= k < sorted@.len() implies (#[trigger] sorted@[k]).0 == 0 by {
            assert(sorted@.contains(sorted@[k]));
            assert(placed@.contains(sorted@[k]));
            let m = choose|m: int| 0 <= m < placed@.len() && placed@[m] == sorted@[k];
        }
        assert forall|a: int, b: int| 0 <= a < b < out@.len() implies ranks_before(out@[a], out@[b]) by {
            assert(comes_before(sorted@[a], sorted@[b]));
        }
        assert forall|x: Scored| out@.contains(x) <==> list@.contains(x) by {
            let y: Placed = (0usize, x.0, x.1);
            if out@.contains(x) {
                let k = choose|k: int| 0 <= k < out@.len() && out@[k] == x;
                assert(sorted@[k] == y);
                assert(sorted@.contains(y));
                assert(placed@.contains(y));
                let m = choose|m: int| 0 <= m < placed@.len() && placed@[m] == y;
                assert(list@[m] == x);
            }
            if list@.contains(x) {
                let m = choose|m: int| 0 <= m < list@.len() && list@[m] == x;
                assert(placed@[m] == y);
                assert(placed@.contains(y));
                assert(sorted@.contains(y));
                let k = choose|k: int| 0 <= k < sorted@.len() && sorted@[k] == y;
                assert(out@[k] == x);
            }
        }
    }
    out
}

} // verus!
