//! Closed contours: ordered lists of point ids where the last point joins the
//! first. Rooms, cutouts, walls and openings are all described by contours.
use vstd::prelude::*;

verus! {

broadcast use Seq::lemma_filter_push;

/// Index of the vertex that follows vertex `i` in a closed contour of `n` vertices.
pub open spec fn succ(n: int, i: int) -> int {
    if i + 1 < n { i + 1 } else { 0 }
}

/// Index of the vertex that precedes vertex `i` in a closed contour of `n` vertices.
pub open spec fn pred(n: int, i: int) -> int {
    if i == 0 { n - 1 } else { i - 1 }
}

/// Vertex `i` and its successor are the pair `{a, b}` (in either direction).
pub open spec fn joins_at(c: Seq<u128>, i: int, a: u128, b: u128) -> bool {
    let j = succ(c.len() as int, i);
    (c[i] == a && c[j] == b) || (c[i] == b && c[j] == a)
}

/// The points `a` and `b` are consecutive somewhere in the closed contour `c`.
pub open spec fn contour_joins(c: Seq<u128>, a: u128, b: u128) -> bool {
    exists|i: int| 0 <= i < c.len() && #[trigger] joins_at(c, i, a, b)
}

/// The first `k` vertices of `c`, each followed by `new_id` when it starts a
/// side `{a, b}`.
pub open spec fn inserted_prefix(c: Seq<u128>, a: u128, b: u128, new_id: u128, k: nat) -> Seq<u128>
    decreases k,
{
    if k == 0 || k > c.len() {
        Seq::empty()
    } else {
        let rest = inserted_prefix(c, a, b, new_id, (k - 1) as nat);
        let i = k - 1;
        if joins_at(c, i, a, b) {
            rest.push(c[i]).push(new_id)
        } else {
            rest.push(c[i])
        }
    }
}

/// The contour `c` with `new_id` inserted into every side `{a, b}`.
pub open spec fn inserted(c: Seq<u128>, a: u128, b: u128, new_id: u128) -> Seq<u128> {
    inserted_prefix(c, a, b, new_id, c.len())
}

/// The contour `c` with every occurrence of `id` removed.
pub open spec fn without(c: Seq<u128>, id: u128) -> Seq<u128> {
    c.filter(other_than(id))
}

/// The predicate "differs from `id`".
pub open spec fn other_than(id: u128) -> spec_fn(u128) -> bool {
    |x: u128| x != id
}

/// For the first `k` vertices of `c` that equal `id`, the pair (previous, next)
/// around it, kept only when both differ from `id` and from each other.
pub open spec fn neighbor_pairs_prefix(c: Seq<u128>, id: u128, k: nat) -> Seq<(u128, u128)>
    decreases k,
{
    if k == 0 || k > c.len() {
        Seq::empty()
    } else {
        let rest = neighbor_pairs_prefix(c, id, (k - 1) as nat);
        let i = k - 1;
        let n = c.len() as int;
        let p = c[pred(n, i)];
        let q = c[succ(n, i)];
        if c[i] == id && p != id && q != id && p != q {
            rest.push((p, q))
        } else {
            rest
        }
    }
}

/// The neighbour pairs of every occurrence of `id` in the contour `c`, in order.
pub open spec fn neighbor_pairs(c: Seq<u128>, id: u128) -> Seq<(u128, u128)> {
    neighbor_pairs_prefix(c, id, c.len())
}

/// Checks whether `a` and `b` are consecutive vertices of the closed contour.
pub fn contour_has_edge(contour: &Vec<u128>, a: u128, b: u128) -> (r: bool)
    ensures
        r == contour_joins(contour@, a, b),
{
    let n = contour.len();
    let mut i: usize = 0;
    while i < n
        invariant
            n == contour@.len(),
            i <= n,
            forall|k: int| 0 <= k < i ==> !#[trigger] joins_at(contour@, k, a, b),
        decreases n - i,
    {
        let j: usize = if i + 1 < n { i + 1 } else { 0 };
        if (contour[i] == a && contour[j] == b) || (contour[i] == b && contour[j] == a) {
            assert(joins_at(contour@, i as int, a, b));
            return true;
        }
        assert(!joins_at(contour@, i as int, a, b));
        i = i + 1;
    }
    false
}

/// Inserts `new_id` into every side `{a, b}` of the closed contour, right
/// after the first vertex of that side (after the last vertex for the closing side).
pub fn insert_in_closed_contour(contour: &mut Vec<u128>, a: u128, b: u128, new_id: u128)
    ensures
        final(contour)@ == inserted(old(contour)@, a, b, new_id),
{
    let n = contour.len();
    let mut out: Vec<u128> = Vec::new();
    let mut i: usize = 0;
    while i < n
        invariant
            n == contour@.len(),
            i <= n,
            out@ == inserted_prefix(contour@, a, b, new_id, i as nat),
        decreases n - i,
    {
        let j: usize = if i + 1 < n { i + 1 } else { 0 };
        let x = contour[i];
        out.push(x);
        if (x == a && contour[j] == b) || (x == b && contour[j] == a) {
            out.push(new_id);
        }
        i = i + 1;
    }
    *contour = out;
}

/// Appends to `pairs` the (previous, next) neighbours of every occurrence of
/// `id` in the closed contour, skipping pairs that involve `id` or coincide.
pub fn collect_neighbor_pairs(contour: &Vec<u128>, id: u128, pairs: &mut Vec<(u128, u128)>)
    ensures
        final(pairs)@ == old(pairs)@ + neighbor_pairs(contour@, id),
{
    let n = contour.len();
    let mut i: usize = 0;
    while i < n
        invariant
            n == contour@.len(),
            i <= n,
            pairs@ == old(pairs)@ + neighbor_pairs_prefix(contour@, id, i as nat),
        decreases n - i,
    {
        if contour[i] == id {
            let p = contour[if i == 0 { n - 1 } else { i - 1 }];
            let q = contour[if i + 1 < n { i + 1 } else { 0 }];
            if p != id && q != id && p != q {
                pairs.push((p, q));
            }
        }
        proof {
            assert(old(pairs)@ + neighbor_pairs_prefix(contour@, id, i as nat).push((
                contour@[pred(n as int, i as int)],
                contour@[succ(n as int, i as int)],
            )) =~= (old(pairs)@ + neighbor_pairs_prefix(contour@, id, i as nat)).push((
                contour@[pred(n as int, i as int)],
                contour@[succ(n as int, i as int)],
            )));
        }
        i = i + 1;
    }
}

/// Removes every occurrence of `id` from the contour, keeping the order of the rest.
pub fn remove_from_contour(contour: &mut Vec<u128>, id: u128)
    ensures
        final(contour)@ == without(old(contour)@, id),
{
    let n = contour.len();
    let mut out: Vec<u128> = Vec::new();
    let mut i: usize = 0;
    while i < n
        invariant
            n == contour@.len(),
            i <= n,
            out@ == contour@.take(i as int).filter(other_than(id)),
        decreases n - i,
    {
        let x = contour[i];
        assert(contour@.take(i as int + 1) =~= contour@.take(i as int).push(x));
        if x != id {
            out.push(x);
        }
        i = i + 1;
    }
    assert(contour@.take(n as int) =~= contour@);
    *contour = out;
}

/// Whether `id` occurs in the contour.
pub fn contour_contains(contour: &Vec<u128>, id: u128) -> (r: bool)
    ensures
        r == contour@.contains(id),
{
    let n = contour.len();
    let mut i: usize = 0;
    while i < n
        invariant
            n == contour@.len(),
            i <= n,
            forall|k: int| 0 <= k < i ==> contour@[k] != id,
        decreases n - i,
    {
        if contour[i] == id {
            return true;
        }
        i = i + 1;
    }
    false
}

} // verus!
