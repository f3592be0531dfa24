//! Properties of the plan operations that hold on every plan.
use vstd::prelude::*;
use crate::contour::{succ, joins_at, contour_joins, inserted, inserted_prefix, without, other_than,
    neighbor_pairs, neighbor_pairs_prefix};
use crate::model::{smart_removed, excision_pairs, rooms_pairs, room_pairs, contours_pairs, walls_pairs, openings_pairs, room_excise_fn, wall_excise_fn, opening_excise_fn, room_kept, wall_kept, opening_kept, room_excised, wall_excised, opening_excised, long_contour, without_fn, RoomView, WallView, OpeningView, Edge, Point, ProjectView, edges_join, edge_joins, ensured_edge, ensured_edges, plain_edge, removed_point, removed_edge, edge_touches, point_other, edge_clear_of, edge_other, room_clear_of, wall_clear_of, opening_clear_of, room_off_side, wall_off_side, opening_off_side, split_view, contour_sides, room_use_lines};

verus! {

broadcast use {Seq::lemma_filter_pred, Seq::lemma_filter_contains};

// ---------------------------------------------------------------------------
// Making sure an edge exists
// ---------------------------------------------------------------------------

/// After making sure an edge joins `a` and `b`, one does, in both directions.
pub proof fn ensured_edge_joins<S>(edges: Seq<Edge<S>>, a: u128, b: u128, id: u128)
    ensures
        edges_join(ensured_edge(edges, a, b, id), a, b),
        edges_join(ensured_edge(edges, a, b, id), b, a),
{
    let r = ensured_edge(edges, a, b, id);
    if edges_join(edges, a, b) {
        let i = choose|i: int| 0 <= i < edges.len() && #[trigger] edge_joins(edges[i], a, b);
        assert(edge_joins(r[i], b, a));
    } else {
        let n = edges.len() as int;
        assert(edge_joins(r[n], a, b));
        assert(edge_joins(r[n], b, a));
    }
}

/// Making sure twice that an edge joins two points, in either direction,
/// leaves the plan as making sure once does.
pub proof fn ensure_edge_idempotent<S, V>(p: ProjectView<S, V>, a: u128, b: u128, id1: u128, id2: u128)
    ensures
        p.with_edges(ensured_edge(ensured_edge(p.edges, a, b, id1), a, b, id2)) == p.with_edges(
            ensured_edge(p.edges, a, b, id1),
        ),
        p.with_edges(ensured_edge(ensured_edge(p.edges, a, b, id1), b, a, id2)) == p.with_edges(
            ensured_edge(p.edges, a, b, id1),
        ),
{
    ensured_edge_joins(p.edges, a, b, id1);
}

/// Making sure a list of pairs is joined keeps every earlier edge in place,
/// joins every pair, and only appends plain edges for pairs of the list.
pub proof fn ensured_edges_props<S>(edges: Seq<Edge<S>>, pairs: Seq<(u128, u128)>, ids: Seq<u128>)
    requires
        ids.len() == pairs.len(),
    ensures
        ensured_edges(edges, pairs, ids).len() >= edges.len(),
        ensured_edges(edges, pairs, ids).subrange(0, edges.len() as int) == edges,
        forall|k: int|
            0 <= k < pairs.len() ==> edges_join(ensured_edges(edges, pairs, ids), #[trigger] pairs[k].0, pairs[k].1),
        forall|j: int|
            edges.len() <= j < ensured_edges(edges, pairs, ids).len() ==> exists|k: int|
                0 <= k < pairs.len() && #[trigger] ensured_edges(edges, pairs, ids)[j] == plain_edge::<S>(
                    ids[k],
                    pairs[k].0,
                    pairs[k].1,
                ),
    decreases pairs.len(),
{
    if pairs.len() > 0 {
        let k = pairs.len() - 1;
        let rest = pairs.drop_last();
        let rids = ids.take(k);
        ensured_edges_props(edges, rest, rids);
        let mid = ensured_edges(edges, rest, rids);
        let res = ensured_edges(edges, pairs, ids);
        assert(res == ensured_edge(mid, pairs[k].0, pairs[k].1, ids[k]));
        ensured_edge_joins(mid, pairs[k].0, pairs[k].1, ids[k]);
        assert(res.subrange(0, mid.len() as int) == mid);
        assert(res.subrange(0, edges.len() as int) =~= mid.subrange(0, edges.len() as int));
        assert forall|q: int| 0 <= q < pairs.len() implies edges_join(res, #[trigger] pairs[q].0, pairs[q].1) by {
            if q < k {
                assert(rest[q] == pairs[q]);
                let i = choose|i: int| 0 <= i < mid.len() && #[trigger] edge_joins(mid[i], pairs[q].0, pairs[q].1);
                assert(res[i] == mid[i]);
            }
        }
        assert forall|j: int| edges.len() <= j < res.len() implies exists|q: int|
            0 <= q < pairs.len() && #[trigger] res[j] == plain_edge::<S>(ids[q], pairs[q].0, pairs[q].1) by {
            if j < mid.len() {
                let q = choose|q: int| 0 <= q < rest.len() && #[trigger] mid[j] == plain_edge::<S>(rids[q], rest[q].0, rest[q].1);
                assert(res[j] == mid[j]);
                assert(rids[q] == ids[q] && rest[q] == pairs[q]);
            } else {
                assert(res[j] == plain_edge::<S>(ids[k], pairs[k].0, pairs[k].1));
            }
        }
    }
}

/// No point occurs twice in `pts`.
pub open spec fn distinct(pts: Seq<u128>) -> bool {
    forall|i: int, j: int| 0 <= i < j < pts.len() ==> pts[i] != pts[j]
}

/// Making sure pairs that are all joined already changes nothing.
proof fn lemma_ensured_edges_noop<S>(edges: Seq<Edge<S>>, pairs: Seq<(u128, u128)>, ids: Seq<u128>)
    requires
        ids.len() == pairs.len(),
        forall|k: int| 0 <= k < pairs.len() ==> edges_join(edges, #[trigger] pairs[k].0, pairs[k].1),
    ensures
        ensured_edges(edges, pairs, ids) == edges,
    decreases pairs.len(),
{
    if pairs.len() > 0 {
        let k = pairs.len() - 1;
        let rest = pairs.drop_last();
        assert forall|q: int| 0 <= q < rest.len() implies edges_join(edges, #[trigger] rest[q].0, rest[q].1) by {
            assert(rest[q] == pairs[q]);
        }
        lemma_ensured_edges_noop(edges, rest, ids.take(k));
        assert(edges_join(edges, pairs[k].0, pairs[k].1));
    }
}

/// Starting from no edges, making sure the first `k` sides of a contour of at
/// least three distinct points appends one plain edge per side.
proof fn lemma_sides_from_nothing<S>(pts: Seq<u128>, ids: Seq<u128>, k: int)
    requires
        pts.len() >= 3,
        distinct(pts),
        ids.len() == pts.len(),
        0 <= k <= pts.len(),
    ensures
        ({
            let sides = contour_sides(pts);
            let res = ensured_edges(Seq::<Edge<S>>::empty(), sides.take(k), ids.take(k));
            &&& res.len() == k
            &&& forall|j: int| 0 <= j < k ==> #[trigger] res[j] == plain_edge::<S>(ids[j], sides[j].0, sides[j].1)
        }),
    decreases k,
{
    let n = pts.len() as int;
    let sides = contour_sides(pts);
    if k > 0 {
        lemma_sides_from_nothing::<S>(pts, ids, k - 1);
        let prev = ensured_edges(Seq::<Edge<S>>::empty(), sides.take(k - 1), ids.take(k - 1));
        assert(sides.take(k).drop_last() =~= sides.take(k - 1));
        assert(ids.take(k).take(k - 1) =~= ids.take(k - 1));
        let a = sides[k - 1].0;
        let b = sides[k - 1].1;
        assert(a == pts[k - 1] && b == pts[succ(n, k - 1)]);
        if edges_join(prev, a, b) {
            let i = choose|i: int| 0 <= i < prev.len() && #[trigger] edge_joins(prev[i], a, b);
            assert(prev[i] == plain_edge::<S>(ids[i], sides[i].0, sides[i].1));
            assert(sides[i] == (pts[i], pts[succ(n, i)]));
            assert(false);
        }
        let res = ensured_edges(Seq::<Edge<S>>::empty(), sides.take(k), ids.take(k));
        assert(res == prev.push(plain_edge::<S>(ids[k - 1], a, b)));
    } else {
        assert(sides.take(0) =~= Seq::<(u128, u128)>::empty());
    }
}

/// Making sure the edges of a closed contour joins every pair of consecutive
/// points (the last to the first too), keeps the earlier edges in front,
/// gives a plan without edges exactly one edge per side when the contour has
/// at least three distinct points, and a second time changes nothing.
pub proof fn ensure_contour_edges_law<S>(edges: Seq<Edge<S>>, pts: Seq<u128>, ids: Seq<u128>, ids2: Seq<u128>)
    requires
        ids.len() == pts.len(),
        ids2.len() == pts.len(),
    ensures
        ({
            let after = ensured_edges(edges, contour_sides(pts), ids);
            &&& forall|i: int| 0 <= i < pts.len() ==> edges_join(after, #[trigger] pts[i], pts[succ(pts.len() as int, i)])
            &&& after.subrange(0, edges.len() as int) == edges
            &&& (edges.len() == 0 && pts.len() >= 3 && distinct(pts)) ==> after.len() == pts.len()
            &&& ensured_edges(after, contour_sides(pts), ids2) == after
        }),
{
    let sides = contour_sides(pts);
    let after = ensured_edges(edges, sides, ids);
    ensured_edges_props(edges, sides, ids);
    assert forall|i: int| 0 <= i < pts.len() implies edges_join(after, #[trigger] pts[i], pts[succ(pts.len() as int, i)]) by {
        assert(sides[i] == (pts[i], pts[succ(pts.len() as int, i)]));
        assert(edges_join(after, sides[i].0, sides[i].1));
    }
    lemma_ensured_edges_noop(after, sides, ids2);
    if edges.len() == 0 && pts.len() >= 3 && distinct(pts) {
        lemma_sides_from_nothing::<S>(pts, ids, pts.len() as int);
        assert(sides.take(pts.len() as int) =~= sides);
        assert(ids.take(pts.len() as int) =~= ids);
        assert(edges =~= Seq::<Edge<S>>::empty());
    }
}

// ---------------------------------------------------------------------------
// Deleting
// ---------------------------------------------------------------------------

/// After deleting a point, nothing in the plan refers to it.
pub proof fn remove_point_leaves_no_reference<S, V>(p: ProjectView<S, V>, id: u128)
    ensures
        ({
            let q = removed_point(p, id);
            &&& forall|i: int| 0 <= i < q.points.len() ==> (#[trigger] q.points[i]).id != id
            &&& forall|i: int| 0 <= i < q.edges.len() ==> !edge_touches(#[trigger] q.edges[i], id)
            &&& forall|i: int| 0 <= i < q.rooms.len() ==> room_clear_of(id)(#[trigger] q.rooms[i])
            &&& forall|i: int| 0 <= i < q.walls.len() ==> !(#[trigger] q.walls[i]).points.contains(id)
            &&& forall|i: int| 0 <= i < q.openings.len() ==> !(#[trigger] q.openings[i]).points.contains(id)
        }),
{
    let q = removed_point(p, id);
    assert forall|i: int| 0 <= i < q.points.len() implies (#[trigger] q.points[i]).id != id by {
        assert(point_other::<S, V>(id)(p.points.filter(point_other(id))[i]));
    }
    assert forall|i: int| 0 <= i < q.edges.len() implies !edge_touches(#[trigger] q.edges[i], id) by {
        assert(edge_clear_of::<S>(id)(p.edges.filter(edge_clear_of(id))[i]));
    }
    assert forall|i: int| 0 <= i < q.walls.len() implies !(#[trigger] q.walls[i]).points.contains(id) by {
        assert(wall_clear_of(id)(p.walls.filter(wall_clear_of(id))[i]));
    }
    assert forall|i: int| 0 <= i < q.openings.len() implies !(#[trigger] q.openings[i]).points.contains(id) by {
        assert(opening_clear_of::<S>(id)(p.openings.filter(opening_clear_of(id))[i]));
    }
}

/// After deleting an edge from `a` to `b`, no room (outer contour or
/// cutout), wall or opening has a side `{a, b}`, and no edge has its id.
pub proof fn remove_edge_leaves_no_side<S, V>(p: ProjectView<S, V>, id: u128, a: u128, b: u128)
    ensures
        ({
            let q = removed_edge(p, id, a, b);
            &&& forall|i: int| 0 <= i < q.edges.len() ==> (#[trigger] q.edges[i]).id != id
            &&& forall|i: int| 0 <= i < q.rooms.len() ==> room_off_side(a, b)(#[trigger] q.rooms[i])
            &&& forall|i: int| 0 <= i < q.walls.len() ==> !contour_joins((#[trigger] q.walls[i]).points, a, b)
            &&& forall|i: int| 0 <= i < q.openings.len() ==> !contour_joins((#[trigger] q.openings[i]).points, a, b)
        }),
{
    let q = removed_edge(p, id, a, b);
    assert forall|i: int| 0 <= i < q.edges.len() implies (#[trigger] q.edges[i]).id != id by {
        assert(edge_other::<S>(id)(p.edges.filter(edge_other(id))[i]));
    }
    assert forall|i: int| 0 <= i < q.walls.len() implies !contour_joins((#[trigger] q.walls[i]).points, a, b) by {
        assert(wall_off_side(a, b)(p.walls.filter(wall_off_side(a, b))[i]));
    }
    assert forall|i: int| 0 <= i < q.openings.len() implies !contour_joins((#[trigger] q.openings[i]).points, a, b) by {
        assert(opening_off_side::<S>(a, b)(p.openings.filter(opening_off_side(a, b))[i]));
    }
}

// ---------------------------------------------------------------------------
// Splitting an edge
// ---------------------------------------------------------------------------

proof fn inserted_prefix_grows(c: Seq<u128>, a: u128, b: u128, n: u128, k: nat, m: nat)
    requires
        k <= m <= c.len(),
    ensures
        inserted_prefix(c, a, b, n, k).len() <= inserted_prefix(c, a, b, n, m).len(),
        inserted_prefix(c, a, b, n, m).subrange(0, inserted_prefix(c, a, b, n, k).len() as int)
            == inserted_prefix(c, a, b, n, k),
    decreases m - k,
{
    if k < m {
        inserted_prefix_grows(c, a, b, n, k, (m - 1) as nat);
        let pk = inserted_prefix(c, a, b, n, k);
        let pm1 = inserted_prefix(c, a, b, n, (m - 1) as nat);
        let pm = inserted_prefix(c, a, b, n, m);
        assert(pm.subrange(0, pm1.len() as int) =~= pm1);
        assert(pm.subrange(0, pk.len() as int) =~= pm1.subrange(0, pk.len() as int));
    }
}

/// Splitting a side `{a, b}` of a closed contour at `n` leaves `a`
/// consecutive to `n` and `n` consecutive to `b`.
pub proof fn split_side_joins_new_point(c: Seq<u128>, a: u128, b: u128, n: u128)
    requires
        contour_joins(c, a, b),
    ensures
        contour_joins(inserted(c, a, b, n), a, n),
        contour_joins(inserted(c, a, b, n), n, b),
{
    let len = c.len();
    let full = inserted(c, a, b, n);
    let i = choose|i: int| 0 <= i < c.len() && #[trigger] joins_at(c, i, a, b);
    let j = succ(len as int, i);
    let pre = inserted_prefix(c, a, b, n, (i + 1) as nat);
    inserted_prefix_grows(c, a, b, n, (i + 1) as nat, len);
    let l = pre.len() as int;
    assert(full[l - 2] == c[i] && full[l - 1] == n) by {
        assert(full.subrange(0, l) == pre);
        assert(full.subrange(0, l)[l - 2] == full[l - 2]);
        assert(full.subrange(0, l)[l - 1] == full[l - 1]);
    }
    assert(joins_at(full, l - 2, c[i], n));
    if i + 1 < len {
        let pre2 = inserted_prefix(c, a, b, n, (i + 2) as nat);
        inserted_prefix_grows(c, a, b, n, (i + 2) as nat, len);
        inserted_prefix_grows(c, a, b, n, (i + 1) as nat, (i + 2) as nat);
        assert(pre2[l] == c[i + 1]);
        assert(full.subrange(0, pre2.len() as int)[l] == full[l]);
        assert(full[l] == c[j]);
        assert(joins_at(full, l - 1, n, c[j]));
    } else {
        let pre1 = inserted_prefix(c, a, b, n, 1);
        inserted_prefix_grows(c, a, b, n, 1, len);
        reveal_with_fuel(inserted_prefix, 2);
        assert(pre1[0] == c[0]);
        assert(full.subrange(0, pre1.len() as int)[0] == full[0]);
        assert(l == full.len());
        assert(joins_at(full, l - 1, n, c[j]));
    }
    if c[i] == a {
        assert(joins_at(full, l - 2, a, n));
        assert(joins_at(full, l - 1, n, b));
    } else {
        assert(joins_at(full, l - 1, a, n));
        assert(joins_at(full, l - 2, n, b));
    }
}

/// After splitting edge A–B at a new point, the point is in the plan, edges
/// A–new and new–B exist, and every contour that had the side A–B now has
/// the sides A–new and new–B instead of ending there.
pub proof fn split_edge_connects_new_point<S, V>(
    p: ProjectView<S, V>,
    edge_id: u128,
    a: u128,
    b: u128,
    np: Point<S, V>,
    ids: Seq<u128>,
)
    requires
        ids.len() == 2,
    ensures
        ({
            let q = split_view(p, edge_id, a, b, np, ids);
            &&& q.points.last() == np
            &&& edges_join(q.edges, a, np.id)
            &&& edges_join(q.edges, np.id, b)
            &&& forall|i: int|
                0 <= i < q.rooms.len() && contour_joins(p.rooms[i].points, a, b) ==> contour_joins(
                    (#[trigger] q.rooms[i]).points,
                    a,
                    np.id,
                ) && contour_joins(q.rooms[i].points, np.id, b)
            &&& forall|i: int|
                0 <= i < q.walls.len() && contour_joins(p.walls[i].points, a, b) ==> contour_joins(
                    (#[trigger] q.walls[i]).points,
                    a,
                    np.id,
                ) && contour_joins(q.walls[i].points, np.id, b)
            &&& forall|i: int|
                0 <= i < q.openings.len() && contour_joins(p.openings[i].points, a, b) ==> contour_joins(
                    (#[trigger] q.openings[i]).points,
                    a,
                    np.id,
                ) && contour_joins(q.openings[i].points, np.id, b)
        }),
{
    let q = split_view(p, edge_id, a, b, np, ids);
    let pairs = seq![(a, np.id), (np.id, b)];
    ensured_edges_props(p.edges.filter(edge_other(edge_id)), pairs, ids);
    assert(pairs[0] == (a, np.id));
    assert(pairs[1] == (np.id, b));
    assert(edges_join(q.edges, pairs[0].0, pairs[0].1));
    assert(edges_join(q.edges, pairs[1].0, pairs[1].1));
    assert forall|i: int|
        0 <= i < q.rooms.len() && contour_joins(p.rooms[i].points, a, b) implies contour_joins(
        (#[trigger] q.rooms[i]).points,
        a,
        np.id,
    ) && contour_joins(q.rooms[i].points, np.id, b) by {
        split_side_joins_new_point(p.rooms[i].points, a, b, np.id);
    }
    assert forall|i: int|
        0 <= i < q.walls.len() && contour_joins(p.walls[i].points, a, b) implies contour_joins(
        (#[trigger] q.walls[i]).points,
        a,
        np.id,
    ) && contour_joins(q.walls[i].points, np.id, b) by {
        split_side_joins_new_point(p.walls[i].points, a, b, np.id);
    }
    assert forall|i: int|
        0 <= i < q.openings.len() && contour_joins(p.openings[i].points, a, b) implies contour_joins(
        (#[trigger] q.openings[i]).points,
        a,
        np.id,
    ) && contour_joins(q.openings[i].points, np.id, b) by {
        split_side_joins_new_point(p.openings[i].points, a, b, np.id);
    }
}

// ---------------------------------------------------------------------------
// Removing a point from contours
// ---------------------------------------------------------------------------

/// No pair of `pairs` involves `id`.
pub open spec fn pairs_avoid(pairs: Seq<(u128, u128)>, id: u128) -> bool {
    forall|k: int| 0 <= k < pairs.len() ==> (#[trigger] pairs[k]).0 != id && pairs[k].1 != id
}

proof fn avoid_concat(x: Seq<(u128, u128)>, y: Seq<(u128, u128)>, id: u128)
    requires
        pairs_avoid(x, id),
        pairs_avoid(y, id),
    ensures
        pairs_avoid(x + y, id),
{
    assert forall|k: int| 0 <= k < (x + y).len() implies (#[trigger] (x + y)[k]).0 != id && (x + y)[k].1 != id by {
        if k >= x.len() {
            assert((x + y)[k] == y[k - x.len()]);
        }
    }
}

proof fn neighbor_pairs_prefix_avoid(c: Seq<u128>, id: u128, k: nat)
    ensures
        pairs_avoid(neighbor_pairs_prefix(c, id, k), id),
    decreases k,
{
    if k > 0 && k <= c.len() {
        neighbor_pairs_prefix_avoid(c, id, (k - 1) as nat);
    }
}

proof fn contours_pairs_avoid(cs: Seq<Seq<u128>>, id: u128)
    ensures
        pairs_avoid(contours_pairs(cs, id), id),
    decreases cs.len(),
{
    if cs.len() > 0 {
        contours_pairs_avoid(cs.drop_last(), id);
        neighbor_pairs_prefix_avoid(cs.last(), id, cs.last().len());
        avoid_concat(contours_pairs(cs.drop_last(), id), neighbor_pairs(cs.last(), id), id);
    }
}

proof fn rooms_pairs_avoid<V>(rs: Seq<RoomView<V>>, id: u128)
    ensures
        pairs_avoid(rooms_pairs(rs, id), id),
    decreases rs.len(),
{
    if rs.len() > 0 {
        rooms_pairs_avoid(rs.drop_last(), id);
        let r = rs.last();
        neighbor_pairs_prefix_avoid(r.points, id, r.points.len());
        contours_pairs_avoid(r.cutouts, id);
        avoid_concat(neighbor_pairs(r.points, id), contours_pairs(r.cutouts, id), id);
        avoid_concat(rooms_pairs(rs.drop_last(), id), room_pairs(r, id), id);
    }
}

proof fn walls_pairs_avoid(ws: Seq<WallView>, id: u128)
    ensures
        pairs_avoid(walls_pairs(ws, id), id),
    decreases ws.len(),
{
    if ws.len() > 0 {
        walls_pairs_avoid(ws.drop_last(), id);
        neighbor_pairs_prefix_avoid(ws.last().points, id, ws.last().points.len());
        avoid_concat(walls_pairs(ws.drop_last(), id), neighbor_pairs(ws.last().points, id), id);
    }
}

proof fn openings_pairs_avoid<S>(os: Seq<OpeningView<S>>, id: u128)
    ensures
        pairs_avoid(openings_pairs(os, id), id),
    decreases os.len(),
{
    if os.len() > 0 {
        openings_pairs_avoid(os.drop_last(), id);
        neighbor_pairs_prefix_avoid(os.last().points, id, os.last().points.len());
        avoid_concat(openings_pairs(os.drop_last(), id), neighbor_pairs(os.last().points, id), id);
    }
}

/// A point never separates itself from a neighbour: the pairs it separated
/// never involve it.
pub proof fn excision_pairs_avoid_point<S, V>(p: ProjectView<S, V>, id: u128)
    ensures
        pairs_avoid(excision_pairs(p, id), id),
{
    rooms_pairs_avoid(p.rooms, id);
    walls_pairs_avoid(p.walls, id);
    openings_pairs_avoid(p.openings, id);
    avoid_concat(rooms_pairs(p.rooms, id), walls_pairs(p.walls, id), id);
    avoid_concat(rooms_pairs(p.rooms, id) + walls_pairs(p.walls, id), openings_pairs(p.openings, id), id);
}

proof fn without_excludes(c: Seq<u128>, id: u128)
    ensures
        !without(c, id).contains(id),
{
    if without(c, id).contains(id) {
        let k = choose|k: int| 0 <= k < without(c, id).len() && without(c, id)[k] == id;
        assert(other_than(id)(c.filter(other_than(id))[k]));
    }
}

proof fn in_mapped_filter<A, B>(s: Seq<A>, f: spec_fn(A) -> B, p: spec_fn(B) -> bool, i: int)
    requires
        0 <= i < s.map_values(f).filter(p).len(),
    ensures
        p(s.map_values(f).filter(p)[i]),
        exists|j: int| 0 <= j < s.len() && s.map_values(f).filter(p)[i] == f(#[trigger] s[j]),
{
    let m = s.map_values(f);
    let x = m.filter(p)[i];
    assert(m.filter(p).contains(x));
    m.lemma_filter_contains_rev(p, x);
    let j = choose|j: int| 0 <= j < m.len() && m[j] == x;
    assert(x == f(s[j]));
}

/// After removing a point "smartly", nothing refers to it any more, every
/// remaining room, cutout, wall and opening still has at least three points,
/// and every pair of neighbours that the point separated is joined by an edge.
pub proof fn smart_remove_point_law<S, V>(p: ProjectView<S, V>, id: u128, ids: Seq<u128>)
    requires
        ids.len() == excision_pairs(p, id).len(),
    ensures
        ({
            let q = smart_removed(p, id, ids);
            let pairs = excision_pairs(p, id);
            &&& forall|i: int| 0 <= i < q.points.len() ==> (#[trigger] q.points[i]).id != id
            &&& forall|i: int| 0 <= i < q.edges.len() ==> !edge_touches(#[trigger] q.edges[i], id)
            &&& forall|i: int|
                0 <= i < q.rooms.len() ==> !(#[trigger] q.rooms[i]).points.contains(id) && q.rooms[i].points.len()
                    >= 3 && forall|k: int|
                    0 <= k < q.rooms[i].cutouts.len() ==> !(#[trigger] q.rooms[i].cutouts[k]).contains(id)
                        && q.rooms[i].cutouts[k].len() >= 3
            &&& forall|i: int|
                0 <= i < q.walls.len() ==> !(#[trigger] q.walls[i]).points.contains(id) && q.walls[i].points.len()
                    >= 3
            &&& forall|i: int|
                0 <= i < q.openings.len() ==> !(#[trigger] q.openings[i]).points.contains(id)
                    && q.openings[i].points.len() >= 3
            &&& forall|k: int| 0 <= k < pairs.len() ==> edges_join(q.edges, #[trigger] pairs[k].0, pairs[k].1)
        }),
{
    let q = smart_removed(p, id, ids);
    let pairs = excision_pairs(p, id);
    let e1 = p.edges.filter(edge_clear_of(id));
    excision_pairs_avoid_point(p, id);
    ensured_edges_props(e1, pairs, ids);
    assert forall|i: int| 0 <= i < q.points.len() implies (#[trigger] q.points[i]).id != id by {
        assert(point_other::<S, V>(id)(p.points.filter(point_other(id))[i]));
    }
    assert forall|i: int| 0 <= i < q.edges.len() implies !edge_touches(#[trigger] q.edges[i], id) by {
        if i < e1.len() {
            assert(q.edges[i] == q.edges.subrange(0, e1.len() as int)[i]);
            assert(edge_clear_of::<S>(id)(e1[i]));
        } else {
            let k = choose|k: int| 0 <= k < pairs.len() && #[trigger] q.edges[i] == plain_edge::<S>(ids[k], pairs[k].0, pairs[k].1);
            assert(pairs[k].0 != id && pairs[k].1 != id);
        }
    }
    assert forall|i: int| 0 <= i < q.rooms.len() implies !(#[trigger] q.rooms[i]).points.contains(id)
        && q.rooms[i].points.len() >= 3 && forall|k: int|
        0 <= k < q.rooms[i].cutouts.len() ==> !(#[trigger] q.rooms[i].cutouts[k]).contains(id)
            && q.rooms[i].cutouts[k].len() >= 3 by {
        in_mapped_filter(p.rooms, room_excise_fn::<V>(id), room_kept::<V>(), i);
        let j = choose|j: int| 0 <= j < p.rooms.len() && q.rooms[i] == room_excise_fn::<V>(id)(#[trigger] p.rooms[j]);
        without_excludes(p.rooms[j].points, id);
        assert forall|k: int| 0 <= k < q.rooms[i].cutouts.len() implies !(#[trigger] q.rooms[i].cutouts[k]).contains(id)
            && q.rooms[i].cutouts[k].len() >= 3 by {
            in_mapped_filter(p.rooms[j].cutouts, without_fn(id), long_contour(), k);
            let m = choose|m: int| 0 <= m < p.rooms[j].cutouts.len() && q.rooms[i].cutouts[k] == without_fn(id)(#[trigger] p.rooms[j].cutouts[m]);
            without_excludes(p.rooms[j].cutouts[m], id);
        }
    }
    assert forall|i: int| 0 <= i < q.walls.len() implies !(#[trigger] q.walls[i]).points.contains(id)
        && q.walls[i].points.len() >= 3 by {
        in_mapped_filter(p.walls, wall_excise_fn(id), wall_kept(), i);
        let j = choose|j: int| 0 <= j < p.walls.len() && q.walls[i] == wall_excise_fn(id)(#[trigger] p.walls[j]);
        without_excludes(p.walls[j].points, id);
    }
    assert forall|i: int| 0 <= i < q.openings.len() implies !(#[trigger] q.openings[i]).points.contains(id)
        && q.openings[i].points.len() >= 3 by {
        in_mapped_filter(p.openings, opening_excise_fn::<S>(id), opening_kept::<S>(), i);
        let j = choose|j: int| 0 <= j < p.openings.len() && q.openings[i] == opening_excise_fn::<S>(id)(#[trigger] p.openings[j]);
        without_excludes(p.openings[j].points, id);
    }
}


/// Filtering keeps everything when everything passes.
proof fn lemma_filter_all<A>(s: Seq<A>, pred: spec_fn(A) -> bool)
    requires
        forall|k: int| 0 <= k < s.len() ==> pred(#[trigger] s[k]),
    ensures
        s.filter(pred) == s,
    decreases s.len(),
{
    broadcast use Seq::lemma_filter_push;
    if s.len() > 0 {
        lemma_filter_all(s.drop_last(), pred);
        assert(s =~= s.drop_last().push(s.last()));
    } else {
        assert(s.filter(pred) =~= s);
    }
}

/// A contour without point `id` loses nothing when `id` is taken out.
proof fn lemma_without_absent(c: Seq<u128>, id: u128)
    requires
        !c.contains(id),
    ensures
        without(c, id) == c,
{
    assert forall|k: int| 0 <= k < c.len() implies other_than(id)(#[trigger] c[k]) by {
        if c[k] == id {
            assert(c.contains(id));
        }
    }
    lemma_filter_all(c, other_than(id));
}

/// Removing point `id` "smartly" leaves everything that does not use it as
/// it was: the plan's name, defaults and labels, the other points, every edge
/// not ending at `id` (kept in front, in order), and every wall, opening or
/// room that does not use `id` and is not already degenerate (fewer than
/// three points, or for a room a cutout of fewer than three points).
pub proof fn smart_remove_keeps_untouched<S, V>(p: ProjectView<S, V>, id: u128, ids: Seq<u128>)
    requires
        ids.len() == excision_pairs(p, id).len(),
    ensures
        ({
            let q = smart_removed(p, id, ids);
            let kept_edges = p.edges.filter(edge_clear_of(id));
            &&& q.id == p.id && q.name == p.name && q.defaults == p.defaults
            &&& q.labels == p.labels
            &&& q.points == p.points.filter(point_other(id))
            &&& q.edges.subrange(0, kept_edges.len() as int) == kept_edges
            &&& forall|i: int|
                0 <= i < p.walls.len() && wall_clear_of(id)(#[trigger] p.walls[i]) && p.walls[i].points.len() >= 3
                    ==> q.walls.contains(p.walls[i])
            &&& forall|i: int|
                0 <= i < p.openings.len() && opening_clear_of(id)(#[trigger] p.openings[i])
                    && p.openings[i].points.len() >= 3 ==> q.openings.contains(p.openings[i])
            &&& forall|i: int|
                0 <= i < p.rooms.len() && room_clear_of(id)(#[trigger] p.rooms[i]) && p.rooms[i].points.len() >= 3
                    && (forall|k: int| 0 <= k < p.rooms[i].cutouts.len() ==> #[trigger] p.rooms[i].cutouts[k].len() >= 3)
                    ==> q.rooms.contains(p.rooms[i])
        }),
{
    let kept_edges = p.edges.filter(edge_clear_of(id));
    ensured_edges_props(kept_edges, excision_pairs(p, id), ids);
    assert forall|i: int|
        0 <= i < p.walls.len() && wall_clear_of(id)(#[trigger] p.walls[i]) && p.walls[i].points.len() >= 3
            implies smart_removed(p, id, ids).walls.contains(p.walls[i]) by {
        let w = p.walls[i];
        lemma_without_absent(w.points, id);
        let mapped = p.walls.map_values(wall_excise_fn(id));
        assert(mapped[i] == w);
        assert(wall_kept()(mapped[i]));
    }
    assert forall|i: int|
        0 <= i < p.openings.len() && opening_clear_of(id)(#[trigger] p.openings[i])
            && p.openings[i].points.len() >= 3 implies smart_removed(p, id, ids).openings.contains(p.openings[i]) by {
        let o = p.openings[i];
        lemma_without_absent(o.points, id);
        let mapped = p.openings.map_values(opening_excise_fn(id));
        assert(mapped[i] == o);
        assert(opening_kept()(mapped[i]));
    }
    assert forall|i: int|
        0 <= i < p.rooms.len() && room_clear_of(id)(#[trigger] p.rooms[i]) && p.rooms[i].points.len() >= 3
            && (forall|k: int| 0 <= k < p.rooms[i].cutouts.len() ==> #[trigger] p.rooms[i].cutouts[k].len() >= 3)
            implies smart_removed(p, id, ids).rooms.contains(p.rooms[i]) by {
        let r = p.rooms[i];
        lemma_without_absent(r.points, id);
        let cs = r.cutouts.map_values(without_fn(id));
        assert forall|k: int| 0 <= k < r.cutouts.len() implies #[trigger] cs[k] == r.cutouts[k] by {
            lemma_without_absent(r.cutouts[k], id);
        }
        assert(cs =~= r.cutouts);
        lemma_filter_all(cs, long_contour());
        let mapped = p.rooms.map_values(room_excise_fn(id));
        assert(mapped[i] == r);
        assert(room_kept()(mapped[i]));
    }
}


// ---------------------------------------------------------------------------
// Laws stated over the contours themselves
// ---------------------------------------------------------------------------

/// The vertex before vertex `i` of the closed contour `c`.
pub open spec fn prev_at(c: Seq<u128>, i: int) -> u128 {
    c[if i == 0 { c.len() - 1 } else { i - 1 }]
}

/// The vertex after vertex `i` of the closed contour `c`.
pub open spec fn next_at(c: Seq<u128>, i: int) -> u128 {
    c[if i + 1 < c.len() { i + 1 } else { 0 }]
}

/// Vertex `i` of `c` is `id`, and its two neighbours are two distinct points
/// other than `id`: taking `id` out makes them neighbours.
pub open spec fn separates(c: Seq<u128>, i: int, id: u128) -> bool {
    &&& 0 <= i < c.len()
    &&& c[i] == id
    &&& prev_at(c, i) != id
    &&& next_at(c, i) != id
    &&& prev_at(c, i) != next_at(c, i)
}

/// `a` and `b` are consecutive somewhere in the closed contour `c`.
pub open spec fn has_side(c: Seq<u128>, a: u128, b: u128) -> bool {
    exists|i: int|
        0 <= i < c.len() && ((#[trigger] c[i] == a && next_at(c, i) == b) || (c[i] == b && next_at(c, i) == a))
}

proof fn lemma_has_side_joins(c: Seq<u128>, a: u128, b: u128)
    ensures
        has_side(c, a, b) == contour_joins(c, a, b),
{
    if has_side(c, a, b) {
        let i = choose|i: int|
            0 <= i < c.len() && ((#[trigger] c[i] == a && next_at(c, i) == b) || (c[i] == b && next_at(c, i) == a));
        assert(joins_at(c, i, a, b));
    }
    if contour_joins(c, a, b) {
        let i = choose|i: int| 0 <= i < c.len() && #[trigger] joins_at(c, i, a, b);
        assert(c[i] == c[i]);
    }
}

proof fn lemma_prefix_keeps_pair(c: Seq<u128>, id: u128, i: int, k: nat)
    requires
        separates(c, i, id),
        i < k <= c.len(),
    ensures
        neighbor_pairs_prefix(c, id, k).contains((prev_at(c, i), next_at(c, i))),
    decreases k,
{
    let x = (prev_at(c, i), next_at(c, i));
    if k == i + 1 {
        let rest = neighbor_pairs_prefix(c, id, i as nat);
        assert(neighbor_pairs_prefix(c, id, k) == rest.push(x));
        assert(rest.push(x)[rest.len() as int] == x);
    } else {
        lemma_prefix_keeps_pair(c, id, i, (k - 1) as nat);
        let rest = neighbor_pairs_prefix(c, id, (k - 1) as nat);
        let j = choose|j: int| 0 <= j < rest.len() && rest[j] == x;
        let now = neighbor_pairs_prefix(c, id, k);
        assert(now == rest || now == rest.push(now.last()));
        assert(now[j] == x);
    }
}

/// The neighbours that `id` separates at vertex `i` are among the pairs of the contour.
proof fn lemma_neighbor_pairs_has(c: Seq<u128>, id: u128, i: int)
    requires
        separates(c, i, id),
    ensures
        neighbor_pairs(c, id).contains((prev_at(c, i), next_at(c, i))),
{
    lemma_prefix_keeps_pair(c, id, i, c.len());
}

proof fn lemma_in_contours_pairs(cs: Seq<Seq<u128>>, id: u128, k: int, x: (u128, u128))
    requires
        0 <= k < cs.len(),
        neighbor_pairs(cs[k], id).contains(x),
    ensures
        contours_pairs(cs, id).contains(x),
    decreases cs.len(),
{
    let last = neighbor_pairs(cs.last(), id);
    if k == cs.len() - 1 {
        let j = choose|j: int| 0 <= j < last.len() && last[j] == x;
        let rest = contours_pairs(cs.drop_last(), id);
        assert((rest + last)[rest.len() + j] == x);
    } else {
        lemma_in_contours_pairs(cs.drop_last(), id, k, x);
        let rest = contours_pairs(cs.drop_last(), id);
        let j = choose|j: int| 0 <= j < rest.len() && rest[j] == x;
        assert((rest + last)[j] == x);
    }
}

proof fn lemma_in_rooms_pairs<V>(rs: Seq<RoomView<V>>, id: u128, k: int, x: (u128, u128))
    requires
        0 <= k < rs.len(),
        room_pairs(rs[k], id).contains(x),
    ensures
        rooms_pairs(rs, id).contains(x),
    decreases rs.len(),
{
    let last = room_pairs(rs.last(), id);
    let rest = rooms_pairs(rs.drop_last(), id);
    if k == rs.len() - 1 {
        let j = choose|j: int| 0 <= j < last.len() && last[j] == x;
        assert((rest + last)[rest.len() + j] == x);
    } else {
        lemma_in_rooms_pairs(rs.drop_last(), id, k, x);
        let j = choose|j: int| 0 <= j < rest.len() && rest[j] == x;
        assert((rest + last)[j] == x);
    }
}

proof fn lemma_in_walls_pairs(ws: Seq<WallView>, id: u128, k: int, x: (u128, u128))
    requires
        0 <= k < ws.len(),
        neighbor_pairs(ws[k].points, id).contains(x),
    ensures
        walls_pairs(ws, id).contains(x),
    decreases ws.len(),
{
    let last = neighbor_pairs(ws.last().points, id);
    let rest = walls_pairs(ws.drop_last(), id);
    if k == ws.len() - 1 {
        let j = choose|j: int| 0 <= j < last.len() && last[j] == x;
        assert((rest + last)[rest.len() + j] == x);
    } else {
        lemma_in_walls_pairs(ws.drop_last(), id, k, x);
        let j = choose|j: int| 0 <= j < rest.len() && rest[j] == x;
        assert((rest + last)[j] == x);
    }
}

proof fn lemma_in_openings_pairs<S>(os: Seq<OpeningView<S>>, id: u128, k: int, x: (u128, u128))
    requires
        0 <= k < os.len(),
        neighbor_pairs(os[k].points, id).contains(x),
    ensures
        openings_pairs(os, id).contains(x),
    decreases os.len(),
{
    let last = neighbor_pairs(os.last().points, id);
    let rest = openings_pairs(os.drop_last(), id);
    if k == os.len() - 1 {
        let j = choose|j: int| 0 <= j < last.len() && last[j] == x;
        assert((rest + last)[rest.len() + j] == x);
    } else {
        lemma_in_openings_pairs(os.drop_last(), id, k, x);
        let j = choose|j: int| 0 <= j < rest.len() && rest[j] == x;
        assert((rest + last)[j] == x);
    }
}

proof fn lemma_pair_joined<S, V>(p: ProjectView<S, V>, id: u128, ids: Seq<u128>, x: (u128, u128))
    requires
        ids.len() == excision_pairs(p, id).len(),
        excision_pairs(p, id).contains(x),
    ensures
        edges_join(smart_removed(p, id, ids).edges, x.0, x.1),
{
    let pairs = excision_pairs(p, id);
    ensured_edges_props(p.edges.filter(edge_clear_of(id)), pairs, ids);
    let k = choose|k: int| 0 <= k < pairs.len() && pairs[k] == x;
    assert(edges_join(smart_removed(p, id, ids).edges, pairs[k].0, pairs[k].1));
}

/// Removing point `id` "smartly" rejoins every pair of neighbours it
/// separated: wherever `id` stands between two distinct other points in a
/// room's outer contour or cutout, a wall or an opening, an edge of the new
/// plan joins those two points.
pub proof fn smart_remove_rejoins_neighbours<S, V>(p: ProjectView<S, V>, id: u128, ids: Seq<u128>)
    requires
        ids.len() == excision_pairs(p, id).len(),
    ensures
        ({
            let q = smart_removed(p, id, ids);
            &&& forall|w: int, i: int|
                0 <= w < p.walls.len() && #[trigger] separates(p.walls[w].points, i, id) ==> edges_join(
                    q.edges,
                    prev_at(p.walls[w].points, i),
                    next_at(p.walls[w].points, i),
                )
            &&& forall|o: int, i: int|
                0 <= o < p.openings.len() && #[trigger] separates(p.openings[o].points, i, id) ==> edges_join(
                    q.edges,
                    prev_at(p.openings[o].points, i),
                    next_at(p.openings[o].points, i),
                )
            &&& forall|r: int, i: int|
                0 <= r < p.rooms.len() && #[trigger] separates(p.rooms[r].points, i, id) ==> edges_join(
                    q.edges,
                    prev_at(p.rooms[r].points, i),
                    next_at(p.rooms[r].points, i),
                )
            &&& forall|r: int, k: int, i: int|
                0 <= r < p.rooms.len() && 0 <= k < p.rooms[r].cutouts.len() && #[trigger] separates(
                    p.rooms[r].cutouts[k],
                    i,
                    id,
                ) ==> edges_join(q.edges, prev_at(p.rooms[r].cutouts[k], i), next_at(p.rooms[r].cutouts[k], i))
        }),
{
    let rp = rooms_pairs(p.rooms, id);
    let wp = walls_pairs(p.walls, id);
    let op = openings_pairs(p.openings, id);
    assert(excision_pairs(p, id) == rp + wp + op);
    assert forall|w: int, i: int|
        0 <= w < p.walls.len() && #[trigger] separates(p.walls[w].points, i, id) implies edges_join(
            smart_removed(p, id, ids).edges,
            prev_at(p.walls[w].points, i),
            next_at(p.walls[w].points, i),
        ) by {
        let c = p.walls[w].points;
        let x = (prev_at(c, i), next_at(c, i));
        lemma_neighbor_pairs_has(c, id, i);
        lemma_in_walls_pairs(p.walls, id, w, x);
        let j = choose|j: int| 0 <= j < wp.len() && wp[j] == x;
        assert((rp + wp + op)[rp.len() + j] == x);
        lemma_pair_joined(p, id, ids, x);
    }
    assert forall|o: int, i: int|
        0 <= o < p.openings.len() && #[trigger] separates(p.openings[o].points, i, id) implies edges_join(
            smart_removed(p, id, ids).edges,
            prev_at(p.openings[o].points, i),
            next_at(p.openings[o].points, i),
        ) by {
        let c = p.openings[o].points;
        let x = (prev_at(c, i), next_at(c, i));
        lemma_neighbor_pairs_has(c, id, i);
        lemma_in_openings_pairs(p.openings, id, o, x);
        let j = choose|j: int| 0 <= j < op.len() && op[j] == x;
        assert((rp + wp + op)[rp.len() + wp.len() + j] == x);
        lemma_pair_joined(p, id, ids, x);
    }
    assert forall|r: int, i: int|
        0 <= r < p.rooms.len() && #[trigger] separates(p.rooms[r].points, i, id) implies edges_join(
            smart_removed(p, id, ids).edges,
            prev_at(p.rooms[r].points, i),
            next_at(p.rooms[r].points, i),
        ) by {
        let c = p.rooms[r].points;
        let x = (prev_at(c, i), next_at(c, i));
        lemma_neighbor_pairs_has(c, id, i);
        let np = neighbor_pairs(c, id);
        let cp = contours_pairs(p.rooms[r].cutouts, id);
        let j = choose|j: int| 0 <= j < np.len() && np[j] == x;
        assert((np + cp)[j] == x);
        lemma_in_rooms_pairs(p.rooms, id, r, x);
        let m = choose|m: int| 0 <= m < rp.len() && rp[m] == x;
        assert((rp + wp + op)[m] == x);
        lemma_pair_joined(p, id, ids, x);
    }
    assert forall|r: int, k: int, i: int|
        0 <= r < p.rooms.len() && 0 <= k < p.rooms[r].cutouts.len() && #[trigger] separates(
            p.rooms[r].cutouts[k],
            i,
            id,
        ) implies edges_join(
            smart_removed(p, id, ids).edges,
            prev_at(p.rooms[r].cutouts[k], i),
            next_at(p.rooms[r].cutouts[k], i),
        ) by {
        let c = p.rooms[r].cutouts[k];
        let x = (prev_at(c, i), next_at(c, i));
        lemma_neighbor_pairs_has(c, id, i);
        lemma_in_contours_pairs(p.rooms[r].cutouts, id, k, x);
        let np = neighbor_pairs(p.rooms[r].points, id);
        let cp = contours_pairs(p.rooms[r].cutouts, id);
        let j = choose|j: int| 0 <= j < cp.len() && cp[j] == x;
        assert((np + cp)[np.len() + j] == x);
        lemma_in_rooms_pairs(p.rooms, id, r, x);
        let m = choose|m: int| 0 <= m < rp.len() && rp[m] == x;
        assert((rp + wp + op)[m] == x);
        lemma_pair_joined(p, id, ids, x);
    }
}

/// Deleting an edge from `a` to `b` deletes exactly the rooms, walls and
/// openings having `a` and `b` as consecutive points: no remaining room has
/// that side on its outer contour or on any cutout, no remaining wall or
/// opening has it, and every room, wall or opening without it is kept.
pub proof fn remove_edge_takes_exactly_sided_objects<S, V>(p: ProjectView<S, V>, id: u128, a: u128, b: u128)
    ensures
        ({
            let q = removed_edge(p, id, a, b);
            &&& forall|i: int|
                0 <= i < q.rooms.len() ==> !has_side((#[trigger] q.rooms[i]).points, a, b) && forall|k: int|
                    0 <= k < q.rooms[i].cutouts.len() ==> !has_side(#[trigger] q.rooms[i].cutouts[k], a, b)
            &&& forall|i: int|
                0 <= i < p.rooms.len() && !has_side((#[trigger] p.rooms[i]).points, a, b) && (forall|k: int|
                    0 <= k < p.rooms[i].cutouts.len() ==> !has_side(#[trigger] p.rooms[i].cutouts[k], a, b))
                    ==> q.rooms.contains(p.rooms[i])
            &&& forall|i: int| 0 <= i < q.walls.len() ==> !has_side((#[trigger] q.walls[i]).points, a, b)
            &&& forall|i: int|
                0 <= i < p.walls.len() && !has_side((#[trigger] p.walls[i]).points, a, b) ==> q.walls.contains(
                    p.walls[i],
                )
            &&& forall|i: int| 0 <= i < q.openings.len() ==> !has_side((#[trigger] q.openings[i]).points, a, b)
            &&& forall|i: int|
                0 <= i < p.openings.len() && !has_side((#[trigger] p.openings[i]).points, a, b)
                    ==> q.openings.contains(p.openings[i])
        }),
{
    let q = removed_edge(p, id, a, b);
    assert forall|i: int| 0 <= i < q.rooms.len() implies !has_side((#[trigger] q.rooms[i]).points, a, b)
        && forall|k: int| 0 <= k < q.rooms[i].cutouts.len() ==> !has_side(#[trigger] q.rooms[i].cutouts[k], a, b) by {
        assert(room_off_side::<V>(a, b)(p.rooms.filter(room_off_side(a, b))[i]));
        lemma_has_side_joins(q.rooms[i].points, a, b);
        assert forall|k: int| 0 <= k < q.rooms[i].cutouts.len() implies !has_side(#[trigger] q.rooms[i].cutouts[k], a, b) by {
            lemma_has_side_joins(q.rooms[i].cutouts[k], a, b);
        }
    }
    assert forall|i: int|
        0 <= i < p.rooms.len() && !has_side((#[trigger] p.rooms[i]).points, a, b) && (forall|k: int|
            0 <= k < p.rooms[i].cutouts.len() ==> !has_side(#[trigger] p.rooms[i].cutouts[k], a, b))
            implies q.rooms.contains(p.rooms[i]) by {
        lemma_has_side_joins(p.rooms[i].points, a, b);
        assert forall|k: int| 0 <= k < p.rooms[i].cutouts.len() implies !contour_joins(#[trigger] p.rooms[i].cutouts[k], a, b) by {
            lemma_has_side_joins(p.rooms[i].cutouts[k], a, b);
        }
        assert(room_off_side::<V>(a, b)(p.rooms[i]));
    }
    assert forall|i: int| 0 <= i < q.walls.len() implies !has_side((#[trigger] q.walls[i]).points, a, b) by {
        assert(wall_off_side(a, b)(p.walls.filter(wall_off_side(a, b))[i]));
        lemma_has_side_joins(q.walls[i].points, a, b);
    }
    assert forall|i: int| 0 <= i < p.walls.len() && !has_side((#[trigger] p.walls[i]).points, a, b)
        implies q.walls.contains(p.walls[i]) by {
        lemma_has_side_joins(p.walls[i].points, a, b);
        assert(wall_off_side(a, b)(p.walls[i]));
    }
    assert forall|i: int| 0 <= i < q.openings.len() implies !has_side((#[trigger] q.openings[i]).points, a, b) by {
        assert(opening_off_side::<S>(a, b)(p.openings.filter(opening_off_side(a, b))[i]));
        lemma_has_side_joins(q.openings[i].points, a, b);
    }
    assert forall|i: int| 0 <= i < p.openings.len() && !has_side((#[trigger] p.openings[i]).points, a, b)
        implies q.openings.contains(p.openings[i]) by {
        lemma_has_side_joins(p.openings[i].points, a, b);
        assert(opening_off_side::<S>(a, b)(p.openings[i]));
    }
}

/// The room lines of "where is this point used" are "Комната: {name}" for
/// exactly the rooms, in order, whose outer contour or some cutout contains
/// the point.
pub proof fn room_use_lines_are_rooms_using_point<V>(rooms: Seq<RoomView<V>>, id: u128)
    ensures
        room_use_lines(rooms, id) == rooms.filter(
            |r: RoomView<V>|
                r.points.contains(id) || exists|k: int| 0 <= k < r.cutouts.len() && #[trigger] r.cutouts[k].contains(id),
        ).map_values(|r: RoomView<V>| "Комната: "@ + r.name),
    decreases rooms.len(),
{
    let uses = |r: RoomView<V>|
        r.points.contains(id) || exists|k: int| 0 <= k < r.cutouts.len() && #[trigger] r.cutouts[k].contains(id);
    let line = |r: RoomView<V>| "Комната: "@ + r.name;
    if rooms.len() > 0 {
        let rest = rooms.drop_last();
        let last = rooms.last();
        room_use_lines_are_rooms_using_point(rest, id);
        assert(rooms =~= rest.push(last));
        rest.lemma_filter_push(last, uses);
        assert(uses(last) == !room_clear_of::<V>(id)(last));
        if uses(last) {
            assert(rest.push(last).filter(uses).map_values(line) =~= rest.filter(uses).map_values(line).push(line(last)));
        }
    } else {
        assert(rooms.filter(uses) =~= Seq::<RoomView<V>>::empty());
        assert(rooms.filter(uses).map_values(line) =~= Seq::<Seq<char>>::empty());
    }
}

} // verus!
