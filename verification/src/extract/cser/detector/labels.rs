use vstd::prelude::*;

use crate::image::GridView;
use crate::structures::Point;

verus! {

/// The owner recorded for `(x, y)`; none outside the grid.
pub open spec fn label_at(own: GridView<Option<usize>>, x: int, y: int) -> Option<usize> {
    if own.inside(x, y) {
        own.at(x, y)
    } else {
        None
    }
}

/// The owner recorded for the `k`-th neighbour of `p`, counted left, above,
/// right, below.
pub open spec fn neighbour_label(own: GridView<Option<usize>>, p: Point, k: int) -> Option<usize> {
    if k == 0 {
        label_at(own, p.x - 1, p.y as int)
    } else if k == 1 {
        label_at(own, p.x as int, p.y - 1)
    } else if k == 2 {
        label_at(own, p.x + 1, p.y as int)
    } else {
        label_at(own, p.x as int, p.y + 1)
    }
}

/// Each element is smaller than the next.
pub open spec fn ascending(s: Seq<usize>) -> bool {
    forall|i: int, j: int| 0 <= i < j < s.len() ==> s[i] < s[j]
}

/// An ascending sequence with `v` put in its place, unless it is there
/// already.
pub open spec fn sorted_insert(s: Seq<usize>, v: usize) -> Seq<usize>
    decreases s.len(),
{
    if s.len() == 0 {
        seq![v]
    } else if v < s[0] {
        seq![v] + s
    } else if v == s[0] {
        s
    } else {
        seq![s[0]] + sorted_insert(s.drop_first(), v)
    }
}

/// `s` with the label `l` put in its place, if there is a label.
pub open spec fn with_label(s: Seq<usize>, l: Option<usize>) -> Seq<usize> {
    match l {
        Some(v) => sorted_insert(s, v),
        None => s,
    }
}

/// The regions that own a neighbour of `p`, each once, in ascending order.
pub open spec fn neighbour_labels(own: GridView<Option<usize>>, p: Point) -> Seq<usize> {
    with_label(
        with_label(
            with_label(with_label(Seq::empty(), neighbour_label(own, p, 0)), neighbour_label(own, p, 1)),
            neighbour_label(own, p, 2),
        ),
        neighbour_label(own, p, 3),
    )
}

/// Where `v` goes in an ascending sequence: at the first position that
/// holds no smaller element, unless that position holds `v` itself.
pub proof fn lemma_sorted_insert_at(s: Seq<usize>, v: usize, i: int)
    requires
        ascending(s),
        0 <= i <= s.len(),
        forall|a: int| 0 <= a < i ==> s[a] < v,
        i == s.len() || s[i] >= v,
    ensures
        sorted_insert(s, v) == if i < s.len() && s[i] == v {
            s
        } else {
            s.insert(i, v)
        },
    decreases s.len(),
{
    if s.len() == 0 {
        assert(seq![v] =~= s.insert(0, v));
    } else if i == 0 {
        if v < s[0] {
            assert(seq![v] + s =~= s.insert(0, v));
        }
    } else {
        assert(s[0] < v);
        let t = s.drop_first();
        assert(ascending(t)) by {
            assert forall|a: int, b: int| 0 <= a < b < t.len() implies t[a] < t[b] by {
                assert(s[a + 1] < s[b + 1]);
            }
        }
        assert forall|a: int| 0 <= a < i - 1 implies t[a] < v by {
            assert(s[a + 1] < v);
        }
        lemma_sorted_insert_at(t, v, i - 1);
        if i < s.len() && s[i] == v {
            assert(seq![s[0]] + t =~= s);
        } else {
            assert(seq![s[0]] + t.insert(i - 1, v) =~= s.insert(i, v));
        }
    }
}

/// Inserting keeps the order, adds `v` and nothing else, and adds at most
/// one element.
pub proof fn lemma_sorted_insert(s: Seq<usize>, v: usize)
    requires
        ascending(s),
    ensures
        ascending(sorted_insert(s, v)),
        forall|x: usize|
            #![trigger sorted_insert(s, v).contains(x)]
            #![trigger s.contains(x)]
            sorted_insert(s, v).contains(x) <==> (s.contains(x) || x == v),
        s.len() <= sorted_insert(s, v).len() <= s.len() + 1,
    decreases s.len(),
{
    let r = sorted_insert(s, v);
    if s.len() == 0 {
        assert(r[0] == v);
        assert forall|x: usize| r.contains(x) <==> (s.contains(x) || x == v) by {
            if x == v {
                assert(r[0] == x);
            }
        }
    } else if v < s[0] {
        assert forall|x: usize| r.contains(x) <==> (s.contains(x) || x == v) by {
            if x == v {
                assert(r[0] == x);
            }
            if s.contains(x) {
                let k = choose|k: int| 0 <= k < s.len() && s[k] == x;
                assert(r[k + 1] == x);
            }
            if r.contains(x) {
                let k = choose|k: int| 0 <= k < r.len() && r[k] == x;
                if k > 0 {
                    assert(s[k - 1] == x);
                }
            }
        }
        assert forall|i: int, j: int| 0 <= i < j < r.len() implies r[i] < r[j] by {
            if i == 0 {
                assert(r[j] == s[j - 1]);
                if j - 1 > 0 {
                    assert(s[0] < s[j - 1]);
                }
            } else {
                assert(s[i - 1] < s[j - 1]);
            }
        }
    } else if v == s[0] {
        assert forall|x: usize| r.contains(x) <==> (s.contains(x) || x == v) by {
            if x == v {
                assert(s[0] == x);
            }
        }
    } else {
        let t = s.drop_first();
        assert(ascending(t)) by {
            assert forall|a: int, b: int| 0 <= a < b < t.len() implies t[a] < t[b] by {
                assert(s[a + 1] < s[b + 1]);
            }
        }
        lemma_sorted_insert(t, v);
        let u = sorted_insert(t, v);
        assert(r == seq![s[0]] + u);
        assert forall|x: usize| r.contains(x) <==> (s.contains(x) || x == v) by {
            if r.contains(x) {
                let k = choose|k: int| 0 <= k < r.len() && r[k] == x;
                if k == 0 {
                    assert(s[0] == x);
                } else {
                    assert(u[k - 1] == x);
                    assert(u.contains(x));
                    if t.contains(x) {
                        let m = choose|m: int| 0 <= m < t.len() && t[m] == x;
                        assert(s[m + 1] == x);
                    }
                }
            }
            if s.contains(x) {
                let k = choose|k: int| 0 <= k < s.len() && s[k] == x;
                if k == 0 {
                    assert(r[0] == x);
                } else {
                    assert(t[k - 1] == x);
                    assert(t.contains(x));
                    assert(u.contains(x));
                    let m = choose|m: int| 0 <= m < u.len() && u[m] == x;
                    assert(r[m + 1] == x);
                }
            }
            if x == v {
                assert(u.contains(x));
                let m = choose|m: int| 0 <= m < u.len() && u[m] == x;
                assert(r[m + 1] == x);
            }
        }
        assert forall|i: int, j: int| 0 <= i < j < r.len() implies r[i] < r[j] by {
            if i == 0 {
                assert(u[j - 1] == r[j]);
                assert(u.contains(r[j]));
                if t.contains(r[j]) {
                    let m = choose|m: int| 0 <= m < t.len() && t[m] == r[j];
                    assert(s[0] < s[m + 1]);
                }
            } else {
                assert(u[i - 1] < u[j - 1]);
            }
        }
    }
}

/// The neighbour labels are ascending, they are exactly the regions that
/// own one of the four neighbours, and there are at most four of them.
pub proof fn lemma_neighbour_labels(own: GridView<Option<usize>>, p: Point)
    ensures
        ascending(neighbour_labels(own, p)),
        neighbour_labels(own, p).len() <= 4,
        forall|x: usize|
            neighbour_labels(own, p).contains(x) <==> exists|k: int|
                0 <= k < 4 && #[trigger] neighbour_label(own, p, k) == Some(x),
{
    let s0 = Seq::<usize>::empty();
    let s1 = with_label(s0, neighbour_label(own, p, 0));
    let s2 = with_label(s1, neighbour_label(own, p, 1));
    let s3 = with_label(s2, neighbour_label(own, p, 2));
    let s4 = with_label(s3, neighbour_label(own, p, 3));
    if neighbour_label(own, p, 0) is Some {
        lemma_sorted_insert(s0, neighbour_label(own, p, 0).unwrap());
    }
    if neighbour_label(own, p, 1) is Some {
        lemma_sorted_insert(s1, neighbour_label(own, p, 1).unwrap());
    }
    if neighbour_label(own, p, 2) is Some {
        lemma_sorted_insert(s2, neighbour_label(own, p, 2).unwrap());
    }
    if neighbour_label(own, p, 3) is Some {
        lemma_sorted_insert(s3, neighbour_label(own, p, 3).unwrap());
    }
    assert forall|x: usize|
        s4.contains(x) <==> exists|k: int| 0 <= k < 4 && #[trigger] neighbour_label(own, p, k) == Some(x) by {
        assert(!s0.contains(x));
        if s4.contains(x) {
            if neighbour_label(own, p, 3) == Some(x) {
            } else if neighbour_label(own, p, 2) == Some(x) {
            } else if neighbour_label(own, p, 1) == Some(x) {
            } else {
                assert(s3.contains(x));
                assert(s2.contains(x));
                assert(s1.contains(x));
                assert(neighbour_label(own, p, 0) == Some(x));
            }
        }
        if exists|k: int| 0 <= k < 4 && #[trigger] neighbour_label(own, p, k) == Some(x) {
            let k = choose|k: int| 0 <= k < 4 && #[trigger] neighbour_label(own, p, k) == Some(x);
            if k == 0 {
                assert(s1.contains(x));
                assert(s2.contains(x));
                assert(s3.contains(x));
            } else if k == 1 {
                assert(s2.contains(x));
                assert(s3.contains(x));
            } else if k == 2 {
                assert(s3.contains(x));
            }
        }
    }
}

} // verus!
