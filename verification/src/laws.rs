//! What holds of every grid: the laws that relate insertion and query.

use vstd::prelude::*;
use crate::cell::{cell_coord_of, cell_origin_of, Pair, CELL_SIZE};
use crate::model::{
    cell_index, cell_indices, lemma_register_preserves_wf, probe_hits, GridState, Rect,
};

verus! {

/// On one axis: whether the extent `e` is larger than the distance from
/// the world coordinate `v` to the nearest cell boundary, be it the one at
/// or below `v` or the next one above.
pub open spec fn reaches_boundary(v: int, e: int) -> bool {
    e > v % (CELL_SIZE as int) || e > CELL_SIZE - v % (CELL_SIZE as int)
}

/// Whether a rectangle, moved to the origin of one of the cells that it
/// touches, overlaps itself.
pub open spec fn meets_own_probe(r: Rect) -> bool {
    exists|c: Pair| r.touches(c) && #[trigger] probe_hits(c, (r.width, r.height), r)
}

/// A valid rectangle touches the cell of its minimum corner, so an
/// insertion of it registers the entity somewhere.
pub proof fn lemma_valid_rect_touches_corner_cell(r: Rect)
    requires
        r.valid(),
    ensures
        r.touches(Pair(cell_coord_of(r.x) as i32, cell_coord_of(r.y) as i32)),
        !r.cells().is_empty(),
{
    let c = Pair(cell_coord_of(r.x) as i32, cell_coord_of(r.y) as i32);
    assert(r.cells().contains(c));
}

/// A valid rectangle overlaps its own probe in some cell exactly when, on
/// both axes, its extent is larger than the distance from its minimum
/// corner to the nearest cell boundary.
pub proof fn lemma_meets_own_probe(r: Rect)
    requires
        r.valid(),
    ensures
        meets_own_probe(r) <==> reaches_boundary(r.x, r.width) && reaches_boundary(
            r.y,
            r.height,
        ),
{
    let a = cell_coord_of(r.x);
    let b = cell_coord_of(r.y);
    if meets_own_probe(r) {
        let c = choose|c: Pair| r.touches(c) && #[trigger] probe_hits(c, (r.width, r.height), r);
        assert(reaches_boundary(r.x, r.width)) by {
            if c.0 > a {
                assert(cell_origin_of(c.0 as int) >= cell_origin_of(a + 1));
            }
        }
        assert(reaches_boundary(r.y, r.height)) by {
            if c.1 > b {
                assert(cell_origin_of(c.1 as int) >= cell_origin_of(b + 1));
            }
        }
    }
    if reaches_boundary(r.x, r.width) && reaches_boundary(r.y, r.height) {
        let i = if r.width > r.x % (CELL_SIZE as int) {
            a
        } else {
            a + 1
        };
        let j = if r.height > r.y % (CELL_SIZE as int) {
            b
        } else {
            b + 1
        };
        let c = Pair(i as i32, j as i32);
        assert(r.touches(c) && probe_hits(c, (r.width, r.height), r));
    }
}

/// Self-overlap. After an entity has been inserted with a bounding box
/// that overlaps its own probe in some cell, a query for that same box
/// reports the entity, whatever else the grid holds.
pub proof fn lemma_self_query_finds_entity(g: GridState, r: Rect, id: usize)
    requires
        meets_own_probe(r),
    ensures
        g.insert(r, id).query(r).contains(id),
{
    let c = choose|c: Pair| r.touches(c) && #[trigger] probe_hits(c, (r.width, r.height), r);
    let after = g.insert(r, id);
    assert(r.cells().contains(c));
    let last = g.bucket(c).len() as int;
    assert(after.bucket(c)[last] == id);
    assert(after.cell_hit(c, r));
}

/// Self-overlap in any grid. After an entity has been inserted, a query
/// for its bounding box reports it exactly when, in one of the cells that
/// the box touches, the probe of some id, its own or another, overlaps
/// the box.
pub proof fn lemma_self_query_in_any_grid(g: GridState, r: Rect, id: usize)
    ensures
        g.insert(r, id).query(r).contains(id) <==> exists|c: Pair|
            r.touches(c) && #[trigger] g.insert(r, id).cell_hit(c, r),
{
    let after = g.insert(r, id);
    if exists|c: Pair| r.touches(c) && #[trigger] after.cell_hit(c, r) {
        let c = choose|c: Pair| r.touches(c) && #[trigger] after.cell_hit(c, r);
        assert(r.cells().contains(c));
        assert(cell_indices(r.cells()).contains(cell_index(c)));
        assert(after.indexed(cell_index(c)).contains(id));
    }
    if after.query(r).contains(id) {
        let c = choose|c: Pair|
            r.cells().contains(c) && #[trigger] after.cell_hit(c, r) && after.indexed(
                cell_index(c),
            ).contains(id);
        assert(r.touches(c));
    }
}

/// Self-overlap, exactly. In a grid that holds nothing but one entity, a
/// query for the bounding box of that entity reports it if the box
/// overlaps its own probe in some cell, and reports nothing otherwise.
pub proof fn lemma_self_query_alone(r: Rect, id: usize)
    ensures
        GridState::empty().insert(r, id).query(r) == if meets_own_probe(r) {
            set![id]
        } else {
            Set::<usize>::empty()
        },
{
    let after = GridState::empty().insert(r, id);
    let expected = if meets_own_probe(r) {
        set![id]
    } else {
        Set::<usize>::empty()
    };
    assert forall|e: usize| after.query(r).contains(e) implies expected.contains(e) by {
        let c = choose|c: Pair|
            r.cells().contains(c) && #[trigger] after.cell_hit(c, r) && after.indexed(
                cell_index(c),
            ).contains(e);
        let m = choose|m: int|
            0 <= m < after.bucket(c).len() && probe_hits(
                c,
                after.dimensions[#[trigger] after.bucket(c)[m]],
                r,
            );
        assert(after.bucket(c)[m] == id && e == id);
    }
    if meets_own_probe(r) {
        lemma_self_query_finds_entity(GridState::empty(), r, id);
    }
}

/// Cell aliasing. If the probe of one id in the bucket of a touched cell
/// overlaps the query, then the query reports every id in that bucket, and
/// every id under the flattened index of that cell, whether or not the
/// bounding boxes they were inserted with overlap the query.
pub proof fn lemma_hit_reports_whole_cell(g: GridState, q: Rect, c: Pair, m: int, id: usize)
    requires
        g.wf(),
        q.touches(c),
        0 <= m < g.bucket(c).len(),
        probe_hits(c, g.dimensions[g.bucket(c)[m]], q),
        g.bucket(c).contains(id) || g.indexed(cell_index(c)).contains(id),
    ensures
        g.query(q).contains(id),
{
    assert(g.cell_hit(c, q));
    if g.bucket(c).contains(id) {
        let n = choose|n: int| 0 <= n < g.bucket(c).len() && g.bucket(c)[n] == id;
        assert(g.ids[cell_index(c)].contains(g.buckets[c][n]));
    }
}

/// Shared extent. An insertion overwrites the recorded extent of the id
/// and leaves every earlier registration in its place, so from then on the
/// probe of that id has the new extent in every cell in which the id was
/// ever registered.
pub proof fn lemma_reinsert_overwrites_extent(
    g: GridState,
    r: Rect,
    id: usize,
    c: Pair,
    m: int,
    q: Rect,
)
    requires
        r.valid(),
        0 <= m < g.bucket(c).len(),
        g.bucket(c)[m] == id,
    ensures
        g.insert(r, id).dimensions[id] == (r.width, r.height),
        g.insert(r, id).bucket(c)[m] == id,
        probe_hits(c, g.insert(r, id).dimensions[g.insert(r, id).bucket(c)[m]], q) == probe_hits(
            c,
            (r.width, r.height),
            q,
        ),
{
    lemma_valid_rect_touches_corner_cell(r);
}

/// Append-only. An insertion removes nothing: every bucket keeps what it
/// held, in the same places; every entry of the secondary index keeps its
/// members; every id keeps a recorded extent, and every id but the
/// inserted one keeps the extent that it had.
pub proof fn lemma_insert_keeps_registrations(g: GridState, r: Rect, id: usize)
    ensures
        forall|c: Pair| #[trigger]
            g.buckets.contains_key(c) ==> g.insert(r, id).buckets.contains_key(c)
                && g.buckets[c].is_prefix_of(g.insert(r, id).buckets[c]),
        forall|k: int| #[trigger]
            g.ids.contains_key(k) ==> g.insert(r, id).ids.contains_key(k) && g.ids[k].subset_of(
                g.insert(r, id).ids[k],
            ),
        forall|e: usize| #[trigger]
            g.dimensions.contains_key(e) ==> g.insert(r, id).dimensions.contains_key(e) && (e != id
                ==> g.insert(r, id).dimensions[e] == g.dimensions[e]),
{
}

/// The insertion of an id that is new to the grid, or that comes with the
/// extent already recorded for it, takes nothing away from the result of
/// any query.
pub proof fn lemma_insert_grows_queries(g: GridState, r: Rect, id: usize, q: Rect)
    requires
        g.wf(),
        g.dimensions.contains_key(id) ==> g.dimensions[id] == (r.width, r.height),
    ensures
        g.query(q).subset_of(g.insert(r, id).query(q)),
{
    let after = g.insert(r, id);
    lemma_insert_keeps_registrations(g, r, id);
    assert forall|e: usize| g.query(q).contains(e) implies after.query(q).contains(e) by {
        let c = choose|c: Pair|
            q.cells().contains(c) && #[trigger] g.cell_hit(c, q) && g.indexed(
                cell_index(c),
            ).contains(e);
        let m = choose|m: int|
            0 <= m < g.bucket(c).len() && probe_hits(
                c,
                g.dimensions[#[trigger] g.bucket(c)[m]],
                q,
            );
        assert(after.bucket(c)[m] == g.bucket(c)[m]);
        assert(after.cell_hit(c, q));
    }
}

/// A query over cells none of which is populated reports nothing.
pub proof fn lemma_query_unpopulated_is_empty(g: GridState, q: Rect)
    requires
        forall|c: Pair| q.touches(c) ==> !g.buckets.contains_key(c),
    ensures
        g.query(q) == Set::<usize>::empty(),
{
    assert forall|e: usize| !g.query(q).contains(e) by {
        if g.query(q).contains(e) {
            let c = choose|c: Pair|
                q.cells().contains(c) && #[trigger] g.cell_hit(c, q) && g.indexed(
                    cell_index(c),
                ).contains(e);
            assert(q.touches(c) && g.bucket(c).len() == 0);
        }
    }
}

/// A query reports only ids that have been inserted.
pub proof fn lemma_query_reports_inserted_ids(g: GridState, q: Rect, id: usize)
    requires
        g.wf(),
        g.query(q).contains(id),
    ensures
        g.dimensions.contains_key(id),
{
    let c = choose|c: Pair|
        q.cells().contains(c) && #[trigger] g.cell_hit(c, q) && g.indexed(cell_index(c)).contains(
            id,
        );
    assert(g.ids[cell_index(c)].contains(id));
}

/// The empty grid is well-formed.
pub proof fn lemma_empty_is_wf()
    ensures
        GridState::empty().wf(),
{
}

/// Insertion keeps a grid well-formed: whatever it puts into a bucket it
/// also puts into the secondary index entry of that cell, together with a
/// recorded extent.
pub proof fn lemma_insert_preserves_wf(g: GridState, r: Rect, id: usize)
    requires
        g.wf(),
    ensures
        g.insert(r, id).wf(),
{
    lemma_register_preserves_wf(g, r.cells(), r.width, r.height, id);
}

} // verus!
