//! Maze generation: a randomized depth-first spanning-tree carve over the
//! grid graph, and the derivation of the wall bitmasks from the passage
//! list.
//!
//! The carve is verified to produce a spanning tree: exactly
//! `width * height - 1` passages, each an unordered pair of adjacent cells,
//! no pair listed twice, and every cell connected to the starting cell
//! through the passage graph.

use vstd::prelude::*;
use vstd::arithmetic::div_mod::{lemma_mod_bound, lemma_mod_multiples_vanish, lemma_small_mod};

use crate::rng::shuffle_cells;
use crate::util::spec_wall_bit;

verus! {

/// Whether cells `a` and `b` share a grid edge of a `w` by `h` grid;
/// `a` is taken to be a valid cell index.
pub open spec fn spec_adjacent(a: int, b: int, w: int, h: int) -> bool {
    ||| (b == a + w && a + w < w * h)
    ||| (b == a - w && a >= w)
    ||| (b == a - 1 && a % w != 0)
    ||| (b == a + 1 && (a + 1) % w != 0)
}

/// Grid adjacency is symmetric.
pub proof fn lemma_adjacent_symm(a: int, b: int, w: int, h: int)
    requires
        0 < w,
        0 < h,
        0 <= a < w * h,
        0 <= b < w * h,
        spec_adjacent(a, b, w, h),
    ensures
        spec_adjacent(b, a, w, h),
{
    if b == a + w && a + w < w * h {
        assert(b >= w);
    } else if b == a - w && a >= w {
        assert(b + w == a && b + w < w * h);
    } else if b == a - 1 && a % w != 0 {
        assert((b + 1) % w != 0);
    } else {
        assert(b == a + 1 && b % w != 0);
    }
}

/// Every passage entry joins two in-range, grid-adjacent cells; the shape
/// the data model guarantees of a generated maze.
pub open spec fn spec_passages_in_grid(ps: Seq<(usize, usize)>, w: int, h: int) -> bool {
    forall|k: int|
        0 <= k < ps.len() ==> (#[trigger] ps[k]).0 < w * h && ps[k].1 < w * h && spec_adjacent(
            ps[k].0 as int,
            ps[k].1 as int,
            w,
            h,
        )
}

/// A passage between two cells makes them grid-adjacent, whichever way
/// the entry stores the pair.
pub proof fn lemma_passage_is_neighbor(
    ps: Seq<(usize, usize)>,
    a: int,
    n: int,
    w: int,
    h: int,
)
    requires
        0 < w,
        0 < h,
        0 <= a < w * h,
        0 <= n < w * h,
        spec_passages_in_grid(ps, w, h),
        spec_has_passage(ps, a, n),
    ensures
        spec_adjacent(a, n, w, h),
{
    let k = choose|k: int|
        0 <= k < ps.len() && ((#[trigger] ps[k]).0 == a && ps[k].1 == n || ps[k].0 == n
            && ps[k].1 == a);
    if ps[k].0 == n && ps[k].1 == a {
        lemma_adjacent_symm(n, a, w, h);
    }
}

/// A visited set closed under passages holds every cell that a passage
/// path reaches from a visited cell.
pub proof fn lemma_path_closure(
    ps: Seq<(usize, usize)>,
    visited: Seq<bool>,
    w: int,
    h: int,
    p: Seq<int>,
)
    requires
        visited.len() == w * h,
        spec_passages_in_grid(ps, w, h),
        p.len() >= 1,
        0 <= p[0] < w * h,
        visited[p[0]],
        forall|i: int| 0 <= i < p.len() - 1 ==> spec_has_passage(ps, #[trigger] p[i], p[i + 1]),
        forall|v: int, n: int|
            0 <= v < w * h && visited[v] && 0 <= n < w * h && #[trigger] spec_has_passage(
                ps,
                v,
                n,
            ) ==> visited[n],
    ensures
        visited[p[p.len() - 1]],
    decreases p.len(),
{
    if p.len() > 1 {
        assert(spec_has_passage(ps, p[0], p[1]));
        let k = choose|k: int|
            0 <= k < ps.len() && ((#[trigger] ps[k]).0 == p[0] && ps[k].1 == p[1] || ps[k].0
                == p[1] && ps[k].1 == p[0]);
        assert(0 <= p[1] < w * h);
        assert(visited[p[1]]);
        let q = p.subrange(1, p.len() as int);
        assert forall|i: int| 0 <= i < q.len() - 1 implies spec_has_passage(
            ps,
            #[trigger] q[i],
            q[i + 1],
        ) by {
            assert(q[i] == p[i + 1] && q[i + 1] == p[i + 2]);
            assert(spec_has_passage(ps, p[i + 1], p[i + 2]));
        }
        lemma_path_closure(ps, visited, w, h, q);
        assert(q[q.len() - 1] == p[p.len() - 1]);
    }
}

/// The number of `true` entries among the first `n` of `s`.
pub open spec fn count_true(s: Seq<bool>, n: int) -> int
    decreases n,
{
    if n <= 0 {
        0
    } else {
        count_true(s, n - 1) + if s[n - 1] {
            1int
        } else {
            0int
        }
    }
}

/// Marking one `false` entry `true` raises the count by one.
pub proof fn lemma_count_update(s: Seq<bool>, i: int, n: int)
    requires
        0 <= i < n <= s.len(),
        !s[i],
    ensures
        count_true(s.update(i, true), n) == count_true(s, n) + 1,
    decreases n,
{
    let t = s.update(i, true);
    if i == n - 1 {
        assert(forall|j: int| 0 <= j < n - 1 ==> t[j] == s[j]);
        lemma_count_same(s, t, n - 1);
    } else {
        lemma_count_update(s, i, n - 1);
    }
}

/// The count reads only the first `n` entries.
pub proof fn lemma_count_same(s: Seq<bool>, t: Seq<bool>, n: int)
    requires
        n <= s.len(),
        n <= t.len(),
        forall|j: int| 0 <= j < n ==> t[j] == s[j],
    ensures
        count_true(s, n) == count_true(t, n),
    decreases n,
{
    if n > 0 {
        lemma_count_same(s, t, n - 1);
    }
}

/// The count is monotone under pointwise implication.
pub proof fn lemma_count_le(s: Seq<bool>, t: Seq<bool>, n: int)
    requires
        n <= s.len(),
        n <= t.len(),
        forall|j: int| 0 <= j < n ==> (s[j] ==> t[j]),
    ensures
        count_true(s, n) <= count_true(t, n),
    decreases n,
{
    if n > 0 {
        lemma_count_le(s, t, n - 1);
    }
}

/// The count lies between zero and `n`.
pub proof fn lemma_count_bounds(s: Seq<bool>, n: int)
    requires
        0 <= n <= s.len(),
    ensures
        0 <= count_true(s, n) <= n,
    decreases n,
{
    if n > 0 {
        lemma_count_bounds(s, n - 1);
    }
}

/// If no entry is `true`, the count is zero.
pub proof fn lemma_count_none(s: Seq<bool>, n: int)
    requires
        0 <= n <= s.len(),
        forall|j: int| 0 <= j < n ==> !s[j],
    ensures
        count_true(s, n) == 0,
    decreases n,
{
    if n > 0 {
        lemma_count_none(s, n - 1);
    }
}

/// If every entry is `true`, the count is `n`.
pub proof fn lemma_count_full(s: Seq<bool>, n: int)
    requires
        0 <= n <= s.len(),
        forall|j: int| 0 <= j < n ==> s[j],
    ensures
        count_true(s, n) == n,
    decreases n,
{
    if n > 0 {
        lemma_count_full(s, n - 1);
    }
}

/// Whether the passage list holds the unordered pair `{a, b}`.
pub open spec fn spec_has_passage(ps: Seq<(usize, usize)>, a: int, b: int) -> bool {
    exists|k: int|
        0 <= k < ps.len() && ((#[trigger] ps[k]).0 == a && ps[k].1 == b || ps[k].0 == b
            && ps[k].1 == a)
}

/// One passage entry: in range, an edge of the grid, both ends carved.
pub open spec fn passage_entry_ok(p: (usize, usize), v: Seq<bool>, w: int, h: int) -> bool {
    &&& (p.0 as int) < w * h
    &&& (p.1 as int) < w * h
    &&& spec_adjacent(p.0 as int, p.1 as int, w, h)
    &&& v[p.0 as int]
    &&& v[p.1 as int]
}

/// Well-formed passage list over the visited set: every entry is a grid
/// edge between visited cells, and each entry's second cell is fresh (it
/// appears in no earlier entry), which rules out duplicates and cycles.
pub open spec fn passages_wf(ps: Seq<(usize, usize)>, v: Seq<bool>, w: int, h: int) -> bool {
    &&& forall|k: int| 0 <= k < ps.len() ==> passage_entry_ok(#[trigger] ps[k], v, w, h)
    &&& forall|j: int, k: int|
        0 <= j < k < ps.len() ==> (#[trigger] ps[k]).1 != (#[trigger] ps[j]).1 && ps[k].1
            != ps[j].0
}

/// A chain of cells from `a` to `b`, each linked to the next by a passage.
pub open spec fn is_path(ps: Seq<(usize, usize)>, p: Seq<int>, a: int, b: int) -> bool {
    &&& p.len() >= 1
    &&& p[0] == a
    &&& p[p.len() - 1] == b
    &&& forall|i: int| 0 <= i < p.len() - 1 ==> spec_has_passage(ps, #[trigger] p[i], p[i + 1])
}

/// Whether `a` is connected to `b` through the passage graph.
pub open spec fn reaches(ps: Seq<(usize, usize)>, a: int, b: int) -> bool {
    exists|p: Seq<int>| is_path(ps, p, a, b)
}

/// Every cell reaches itself.
pub proof fn lemma_reaches_refl(ps: Seq<(usize, usize)>, a: int)
    ensures
        reaches(ps, a, a),
{
    let p = seq![a];
    assert(is_path(ps, p, a, a));
}

/// A path may be extended across one more passage.
pub proof fn lemma_reaches_extend(ps: Seq<(usize, usize)>, a: int, b: int, c: int)
    requires
        reaches(ps, a, b),
        spec_has_passage(ps, b, c),
    ensures
        reaches(ps, a, c),
{
    let p = choose|p: Seq<int>| is_path(ps, p, a, b);
    let q = p.push(c);
    assert forall|i: int| 0 <= i < q.len() - 1 implies spec_has_passage(
        ps,
        #[trigger] q[i],
        q[i + 1],
    ) by {
        if i < p.len() - 1 {
            assert(spec_has_passage(ps, p[i], p[i + 1]));
        }
    }
    assert(is_path(ps, q, a, c));
}

/// Connectivity survives appending entries to the passage list.
pub proof fn lemma_reaches_mono(
    ps1: Seq<(usize, usize)>,
    ps2: Seq<(usize, usize)>,
    a: int,
    b: int,
)
    requires
        reaches(ps1, a, b),
        ps1.len() <= ps2.len(),
        forall|k: int| 0 <= k < ps1.len() ==> ps2[k] == ps1[k],
    ensures
        reaches(ps2, a, b),
{
    let p = choose|p: Seq<int>| is_path(ps1, p, a, b);
    assert forall|i: int| 0 <= i < p.len() - 1 implies spec_has_passage(
        ps2,
        #[trigger] p[i],
        p[i + 1],
    ) by {
        let k = choose|k: int|
            0 <= k < ps1.len() && ((#[trigger] ps1[k]).0 == p[i] && ps1[k].1 == p[i + 1]
                || ps1[k].0 == p[i + 1] && ps1[k].1 == p[i]);
        assert(ps2[k] == ps1[k]);
    }
    assert(is_path(ps2, p, a, b));
}

/// The four grid neighbors of a cell, in up, down, left, right order;
/// `None` where the grid edge lies that way.
pub fn find_neighbors(index: usize, width: usize, height: usize) -> (nb: [Option<usize>; 4])
    requires
        0 < width <= 256,
        0 < height <= 256,
        index < width * height,
    ensures
        nb@[0] == (if index + width < width * height {
            Some((index + width) as usize)
        } else {
            None::<usize>
        }),
        nb@[1] == (if index >= width {
            Some((index - width) as usize)
        } else {
            None::<usize>
        }),
        nb@[2] == (if index % width != 0 {
            Some((index - 1) as usize)
        } else {
            None::<usize>
        }),
        nb@[3] == (if (index as int + 1) % (width as int) != 0 {
            Some((index + 1) as usize)
        } else {
            None::<usize>
        }),
        forall|j: int|
            0 <= j < 4 && nb@[j].is_some() ==> (#[trigger] nb@[j]).unwrap() < width * height
                && spec_adjacent(index as int, nb@[j].unwrap() as int, width as int, height as int),
{
    proof {
        assert(width <= width * height && width * height <= 65536) by (nonlinear_arith)
            requires
                0 < width <= 256,
                0 < height <= 256,
        ;
    }
    let num_cells = width * height;

    let up = if index < num_cells - width {
        Some(index + width)
    } else {
        None
    };

    let down = if index > width - 1 {
        Some(index - width)
    } else {
        None
    };

    proof {
        lemma_small_mod(0, width as nat);
    }
    let left = if index % width != 0 {
        Some(index - 1)
    } else {
        None
    };

    let right = if (index + 1) % width != 0 {
        Some(index + 1)
    } else {
        None
    };

    proof {
        if (index as int + 1) % (width as int) != 0 && index + 1 == num_cells {
            vstd::arithmetic::div_mod::lemma_mod_multiples_basic(height as int, width as int);
            assert((height as int) * (width as int) == (width as int) * (height as int))
                by (nonlinear_arith);
            assert(false);
        }
    }
    [up, down, left, right]
}

/// Scans the passage list for a doorway between `index` and `neighbor` in
/// either order, reporting `true` when none exists.
pub fn there_is_no_passage_here(index: usize, neighbor: usize, passages: &Vec<(usize, usize)>) -> (r:
    bool)
    ensures
        r == !spec_has_passage(passages@, index as int, neighbor as int),
{
    let n = passages.len();
    let mut k: usize = 0;
    while k < n
        invariant
            k <= n,
            n == passages@.len(),
            forall|t: int|
                0 <= t < k ==> !((#[trigger] passages@[t]).0 == index && passages@[t].1 == neighbor
                    || passages@[t].0 == neighbor && passages@[t].1 == index),
        decreases n - k,
    {
        let pass = passages[k];
        if (index == pass.0 && neighbor == pass.1) || (index == pass.1 && neighbor == pass.0) {
            return false;
        }
        k += 1;
    }
    true
}

/// Carves the maze outward from `index`: marks it visited, shuffles its
/// unvisited neighbors, and for each one still unvisited records a passage
/// and recurses into it.  On return, every cell carved by the call is
/// passage-connected to `index`, has all of its neighbors carved, and the
/// passage list has grown by exactly one entry per newly carved cell.
#[verifier::loop_isolation(false)]
pub fn find_next_passage(
    index: usize,
    width: usize,
    height: usize,
    visited: &mut Vec<bool>,
    passages: &mut Vec<(usize, usize)>,
    rng: &mut rand::rngs::SmallRng,
)
    requires
        0 < width <= 256,
        0 < height <= 256,
        old(visited).len() == width * height,
        index < width * height,
        !old(visited)@[index as int],
        passages_wf(
            old(passages)@,
            old(visited)@.update(index as int, true),
            width as int,
            height as int,
        ),
    ensures
        final(visited)@.len() == width * height,
        forall|c: int| 0 <= c < width * height ==> (old(visited)@[c] ==> final(visited)@[c]),
        final(visited)@[index as int],
        final(passages)@.len() >= old(passages)@.len(),
        forall|k: int| 0 <= k < old(passages)@.len() ==> final(passages)@[k] == old(passages)@[k],
        passages_wf(final(passages)@, final(visited)@, width as int, height as int),
        final(passages)@.len() - old(passages)@.len() == count_true(
            final(visited)@,
            (width * height) as int,
        ) - count_true(old(visited)@, (width * height) as int) - 1,
        forall|c: int|
            0 <= c < width * height && final(visited)@[c] && !old(visited)@[c] ==> reaches(
                final(passages)@,
                c,
                index as int,
            ),
        forall|c: int, n: int|
            0 <= c < width * height && final(visited)@[c] && !old(visited)@[c] && 0 <= n < width
                * height && spec_adjacent(c, n, width as int, height as int) ==> final(visited)@[n],
    decreases (width * height) as int - count_true(old(visited)@, (width * height) as int),
{
    let ghost num = (width * height) as int;
    let ghost v0 = old(visited)@;
    let ghost p0 = old(passages)@;

    visited[index] = true;
    let ghost v1 = visited@;
    proof {
        lemma_count_update(v0, index as int, num);
        lemma_count_bounds(v0, num);
    }

    let nb = find_neighbors(index, width, height);
    let mut potential: Vec<usize> = Vec::new();
    let mut j: usize = 0;
    while j < 4
        invariant
            j <= 4,
            visited@ == v1,
            passages@ == p0,
            forall|t: int|
                0 <= t < potential@.len() ==> (#[trigger] potential@[t]) < width * height
                    && spec_adjacent(
                    index as int,
                    potential@[t] as int,
                    width as int,
                    height as int,
                ) && !visited@[potential@[t] as int],
            forall|t: int|
                0 <= t < j && nb@[t].is_some() ==> visited@[(#[trigger] nb@[t]).unwrap() as int]
                    || potential@.contains(nb@[t].unwrap()),
        decreases 4 - j,
    {
        match nb[j] {
            Some(n) => {
                if !visited[n] && there_is_no_passage_here(index, n, passages) {
                    let ghost po = potential@;
                    potential.push(n);
                    proof {
                        assert forall|e: usize| po.contains(e) implies potential@.contains(
                            e,
                        ) by {
                            let s = choose|s: int| 0 <= s < po.len() && po[s] == e;
                            assert(potential@[s] == e);
                        }
                        assert(potential@.contains(n)) by {
                            assert(potential@[potential@.len() - 1] == n);
                        }
                    }
                } else {
                    proof {
                        if !visited@[n as int] {
                            // an unvisited cell can be no endpoint of a passage
                            let k = choose|k: int|
                                0 <= k < passages@.len() && ((#[trigger] passages@[k]).0
                                    == index as int && passages@[k].1 == n as int || passages@[k].0
                                    == n as int && passages@[k].1 == index as int);
                            assert(passage_entry_ok(passages@[k], v1, width as int, height as int));
                            assert(false);
                        }
                    }
                }
            },
            None => {},
        }
        j += 1;
    }

    let ghost pot0 = potential@;
    shuffle_cells(rng, &mut potential);
    proof {
        pot0.to_multiset_ensures();
        potential@.to_multiset_ensures();
        assert forall|t: int| 0 <= t < potential@.len() implies (#[trigger] potential@[t]) < width
            * height && spec_adjacent(index as int, potential@[t] as int, width as int, height as int)
            && !visited@[potential@[t] as int] by {
            let e = potential@[t];
            assert(potential@.contains(e));
            assert(pot0.to_multiset().count(e) > 0);
            assert(pot0.contains(e));
            let s = choose|s: int| 0 <= s < pot0.len() && pot0[s] == e;
        }
        assert forall|t: int|
            0 <= t < 4 && nb@[t].is_some() && !visited@[(#[trigger] nb@[t]).unwrap() as int] implies
            potential@.contains(nb@[t].unwrap()) by {
            let e = nb@[t].unwrap();
            assert(pot0.contains(e));
            assert(pot0.to_multiset().count(e) > 0);
        }
    }

    let mut i: usize = 0;
    while i < potential.len()
        invariant
            i <= potential@.len(),
            visited@.len() == width * height,
            forall|c: int| 0 <= c < num ==> (v1[c] ==> visited@[c]),
            passages_wf(passages@, visited@, width as int, height as int),
            passages@.len() >= p0.len(),
            forall|k: int| 0 <= k < p0.len() ==> passages@[k] == p0[k],
            passages@.len() - p0.len() == count_true(visited@, num) - count_true(v1, num),
            forall|c: int|
                0 <= c < num && visited@[c] && !v1[c] ==> reaches(passages@, c, index as int),
            forall|c: int, n: int|
                0 <= c < num && visited@[c] && !v1[c] && 0 <= n < num && spec_adjacent(
                    c,
                    n,
                    width as int,
                    height as int,
                ) ==> visited@[n],
            forall|t: int| 0 <= t < i ==> visited@[(#[trigger] potential@[t]) as int],
        decreases potential@.len() - i,
    {
        let pass = potential[i];
        if !visited[pass] {
            let ghost vb = visited@;
            let ghost pb = passages@;
            passages.push((index, pass));
            proof {
                lemma_count_le(v1, vb, num);
                lemma_count_bounds(vb, num);
                let pp = passages@;
                let vv = vb.update(pass as int, true);
                assert forall|k: int| 0 <= k < pp.len() implies passage_entry_ok(
                    #[trigger] pp[k],
                    vv,
                    width as int,
                    height as int,
                ) by {
                    if k < pb.len() {
                        assert(passage_entry_ok(pb[k], vb, width as int, height as int));
                    }
                }
                assert forall|jj: int, k: int| 0 <= jj < k < pp.len() implies (#[trigger] pp[k]).1
                    != (#[trigger] pp[jj]).1 && pp[k].1 != pp[jj].0 by {
                    if k < pb.len() {
                        assert(pp[k] == pb[k] && pp[jj] == pb[jj]);
                    } else {
                        assert(passage_entry_ok(pb[jj], vb, width as int, height as int));
                    }
                }
                assert(passages_wf(pp, vv, width as int, height as int));
            }
            find_next_passage(pass, width, height, visited, passages, rng);
            proof {
                let pa = passages@;
                let va = visited@;
                assert(spec_has_passage(pa, pass as int, index as int)) by {
                    assert(pa[pb.len() as int] == (index, pass));
                }
                assert forall|c: int| 0 <= c < num && va[c] && !v1[c] implies reaches(
                    pa,
                    c,
                    index as int,
                ) by {
                    if vb[c] {
                        lemma_reaches_mono(pb, pa, c, index as int);
                    } else {
                        lemma_reaches_extend(pa, c, pass as int, index as int);
                    }
                }
            }
        }
        i += 1;
    }

    proof {
        lemma_reaches_refl(passages@, index as int);
        assert forall|c: int| 0 <= c < num && v0[c] implies visited@[c] by {
            assert(v1[c]);
        }
        assert forall|c: int| 0 <= c < num && visited@[c] && !v0[c] implies reaches(
            passages@,
            c,
            index as int,
        ) by {
            if c != index as int {
                assert(!v1[c]);
            }
        }
        assert forall|c: int, n: int|
            0 <= c < num && visited@[c] && !v0[c] && 0 <= n < num && spec_adjacent(
                c,
                n,
                width as int,
                height as int,
            ) implies visited@[n] by {
            if c == index as int {
                if n == index as int + width {
                    assert(nb@[0] == Some((index + width) as usize));
                } else if n == index as int - width {
                    assert(nb@[1] == Some((index - width) as usize));
                } else if n == index as int - 1 {
                    assert(nb@[2] == Some((index - 1) as usize));
                } else {
                    assert(nb@[3] == Some((index + 1) as usize));
                }
                if !v1[n] {
                    assert(potential@.contains((n as usize)));
                    let t = choose|t: int|
                        0 <= t < potential@.len() && potential@[t] == (n as usize);
                    assert(visited@[potential@[t] as int]);
                }
            }
        }
    }
}

/// Setting one bit of a wall line leaves every other bit as it was.
proof fn lemma_set_bit(l: u16, c: u16, c2: u16)
    requires
        c < 16,
        c2 < 16,
    ensures
        ((l | (1u16 << c)) >> c2) & 1 == (if c2 == c {
            1u16
        } else {
            (l >> c2) & 1
        }),
{
    assert(((l | (1u16 << c)) >> c2) & 1 == (if c2 == c {
        1u16
    } else {
        (l >> c2) & 1
    })) by (bit_vector)
        requires
            c < 16,
            c2 < 16,
    ;
}

/// The all-clear wall line has no bit set.
proof fn lemma_zero_bits(c2: u16)
    ensures
        (0u16 >> c2) & 1 == 0,
{
    assert((0u16 >> c2) & 1 == 0) by (bit_vector);
}

/// Whether the horizontal wall line `r` should hold a wall at column `c`:
/// a wall everywhere except where a passage joins the cells above and
/// below the boundary.
pub open spec fn spec_h_wall(ps: Seq<(usize, usize)>, r: int, c: int, w: int, h: int) -> bool {
    !(1 <= r && r <= h - 1 && spec_has_passage(ps, c + (r - 1) * w, c + r * w))
}

/// Whether the vertical wall line `cl` should hold a wall at row `rr`.
pub open spec fn spec_v_wall(ps: Seq<(usize, usize)>, cl: int, rr: int, w: int, h: int) -> bool {
    !(1 <= cl && cl <= w - 1 && spec_has_passage(ps, (cl - 1) + rr * w, cl + rr * w))
}

/// Builds one wall line: bit `c` is set exactly when `spec_h_wall` (for a
/// horizontal line) or `spec_v_wall` (for a vertical line) asks for a wall.
/// `vertical` selects which boundary family the line belongs to.
#[verifier::loop_isolation(false)]
fn build_wall_line(
    line_idx: usize,
    bits: usize,
    width: usize,
    height: usize,
    vertical: bool,
    passages: &Vec<(usize, usize)>,
) -> (line: u16)
    requires
        0 < width <= 16,
        0 < height <= 16,
        bits <= 16,
        !vertical ==> line_idx <= height && bits == width,
        vertical ==> line_idx <= width && bits == height,
    ensures
        forall|c: int|
            0 <= c < bits ==> spec_wall_bit(line, c) == (if vertical {
                spec_v_wall(passages@, line_idx as int, c, width as int, height as int)
            } else {
                spec_h_wall(passages@, line_idx as int, c, width as int, height as int)
            }),
        forall|c: int| bits <= c < 16 ==> !spec_wall_bit(line, c),
{
    let mut line: u16 = 0;
    proof {
        assert forall|c2: int| 0 <= c2 < 16 implies !spec_wall_bit(line, c2) by {
            lemma_zero_bits(c2 as u16);
        }
    }
    let mut c: usize = 0;
    while c < bits
        invariant
            c <= bits,
            forall|c2: int|
                0 <= c2 < c ==> spec_wall_bit(line, c2) == (if vertical {
                    spec_v_wall(passages@, line_idx as int, c2, width as int, height as int)
                } else {
                    spec_h_wall(passages@, line_idx as int, c2, width as int, height as int)
                }),
            forall|c2: int| c <= c2 < 16 ==> !spec_wall_bit(line, c2),
        decreases bits - c,
    {
        proof {
            assert(c * width <= 240 && (line_idx - 1) * width <= 240 && line_idx * width
                <= 256) by (nonlinear_arith)
                requires
                    c < 16,
                    0 < width <= 16,
                    line_idx <= 16,
            ;
        }
        let open_here: bool = if vertical {
            line_idx >= 1 && line_idx + 1 <= width && !there_is_no_passage_here(
                (line_idx - 1) + c * width,
                line_idx + c * width,
                passages,
            )
        } else {
            line_idx >= 1 && line_idx + 1 <= height && !there_is_no_passage_here(
                c + (line_idx - 1) * width,
                c + line_idx * width,
                passages,
            )
        };
        let ghost line_before = line;
        if !open_here {
            line = line | (1u16 << (c as u16));
            proof {
                assert forall|c2: int| 0 <= c2 < 16 implies spec_wall_bit(line, c2) == (c2
                    == c || spec_wall_bit(line_before, c2)) by {
                    lemma_set_bit(line_before, c as u16, c2 as u16);
                }
            }
        }
        c += 1;
    }
    line
}

/// Derives the wall bitmasks from the passage list: every cell boundary
/// carries a wall bit except exactly where a passage crosses it, and the
/// outer boundary lines are fully walled.
#[verifier::loop_isolation(false)]
pub fn find_walls(
    width: usize,
    height: usize,
    passages: &Vec<(usize, usize)>,
    horizontal_walls: &mut Vec<u16>,
    vertical_walls: &mut Vec<u16>,
)
    requires
        0 < width <= 16,
        0 < height <= 16,
    ensures
        final(horizontal_walls)@.len() == height + 1,
        final(vertical_walls)@.len() == width + 1,
        forall|r: int, c: int|
            0 <= r <= height && 0 <= c < width ==> #[trigger] spec_wall_bit(
                final(horizontal_walls)@[r],
                c,
            ) == spec_h_wall(passages@, r, c, width as int, height as int),
        forall|cl: int, rr: int|
            0 <= cl <= width && 0 <= rr < height ==> #[trigger] spec_wall_bit(
                final(vertical_walls)@[cl],
                rr,
            ) == spec_v_wall(passages@, cl, rr, width as int, height as int),
{
    horizontal_walls.clear();
    let mut r: usize = 0;
    while r <= height
        invariant
            r <= height + 1,
            horizontal_walls@.len() == r,
            forall|r2: int, c: int|
                0 <= r2 < r && 0 <= c < width ==> #[trigger] spec_wall_bit(
                    horizontal_walls@[r2],
                    c,
                ) == spec_h_wall(passages@, r2, c, width as int, height as int),
        decreases height + 1 - r,
    {
        let line = build_wall_line(r, width, width, height, false, passages);
        horizontal_walls.push(line);
        r += 1;
    }

    vertical_walls.clear();
    let mut cl: usize = 0;
    while cl <= width
        invariant
            cl <= width + 1,
            vertical_walls@.len() == cl,
            forall|c2: int, rr: int|
                0 <= c2 < cl && 0 <= rr < height ==> #[trigger] spec_wall_bit(
                    vertical_walls@[c2],
                    rr,
                ) == spec_v_wall(passages@, c2, rr, width as int, height as int),
        decreases width + 1 - cl,
    {
        let line = build_wall_line(cl, height, width, height, true, passages);
        vertical_walls.push(line);
        cl += 1;
    }
}

/// Cell `(x, y)` is visited whenever cell 0 is and the visited set is
/// closed under grid adjacency: walk right along the bottom row, then up.
proof fn lemma_cell_visited(v: Seq<bool>, w: int, h: int, x: int, y: int)
    requires
        v.len() == w * h,
        0 < w,
        0 < h,
        0 <= x < w,
        0 <= y < h,
        v[0],
        forall|c: int, n: int|
            0 <= c < w * h && v[c] && 0 <= n < w * h && spec_adjacent(c, n, w, h) ==> v[n],
    ensures
        v[x + y * w],
    decreases x + y,
{
    if x > 0 {
        lemma_cell_visited(v, w, h, x - 1, y);
        let a = x - 1 + y * w;
        let b = x + y * w;
        assert(y * w == w * y) by (nonlinear_arith);
        lemma_mod_multiples_vanish(y, x, w);
        lemma_small_mod(x as nat, w as nat);
        assert(0 <= a && b < w * h) by (nonlinear_arith)
            requires
                1 <= x < w,
                0 <= y < h,
                a == x - 1 + y * w,
                b == x + y * w,
        ;
        assert((a + 1) % w == (w * y + x) % w);
        assert(spec_adjacent(a, b, w, h));
    } else if y > 0 {
        lemma_cell_visited(v, w, h, 0, y - 1);
        let a = (y - 1) * w;
        let b = y * w;
        assert(0 <= a && b == a + w && b < w * h) by (nonlinear_arith)
            requires
                1 <= y < h,
                0 < w,
                a == (y - 1) * w,
                b == y * w,
        ;
        assert(spec_adjacent(a, b, w, h));
        assert(v[b]);
    } else {
        assert(x + y * w == 0) by (nonlinear_arith)
            requires
                x == 0,
                y == 0,
        ;
    }
}

/// If cell 0 is visited and the visited set is closed under adjacency,
/// every cell of the grid is visited.
pub proof fn lemma_closure_full(v: Seq<bool>, w: int, h: int)
    requires
        v.len() == w * h,
        0 < w,
        0 < h,
        v[0],
        forall|c: int, n: int|
            0 <= c < w * h && v[c] && 0 <= n < w * h && spec_adjacent(c, n, w, h) ==> v[n],
    ensures
        forall|c: int| 0 <= c < w * h ==> v[c],
{
    assert forall|c: int| 0 <= c < w * h implies v[c] by {
        let y = c / w;
        let x = c % w;
        vstd::arithmetic::div_mod::lemma_fundamental_div_mod(c, w);
        lemma_mod_bound(c, w);
        assert(0 <= y && y < h) by (nonlinear_arith)
            requires
                c == w * y + x,
                0 <= x < w,
                0 <= c < w * h,
        ;
        assert(y * w == w * y) by (nonlinear_arith);
        lemma_cell_visited(v, w, h, x, y);
        assert(c == x + y * w);
    }
}

} // verus!
