//! The mathematical model of the grid: what it holds, what an insertion
//! adds, and which ids a query reports.

use vstd::prelude::*;
use crate::cell::{cell_coord_of, cell_origin_of, Pair, CELL_SIZE};

verus! {

/// An axis-aligned rectangle: its minimum corner and its extent.
pub struct Rect {
    pub x: int,
    pub y: int,
    pub width: int,
    pub height: int,
}

impl Rect {
    /// The rectangle with minimum corner `(x, y)` and the given extent.
    pub open spec fn at(x: int, y: int, width: int, height: int) -> Rect {
        Rect { x, y, width, height }
    }

    /// A rectangle that an insertion or a query can be given: corner and
    /// extent are 32-bit values, and the extent is not negative.
    pub open spec fn valid(self) -> bool {
        &&& i32::MIN <= self.x <= i32::MAX
        &&& i32::MIN <= self.y <= i32::MAX
        &&& 0 <= self.width <= i32::MAX
        &&& 0 <= self.height <= i32::MAX
    }

    /// Whether cell `c` lies in the inclusive range of cells between the
    /// cell of the minimum corner and the cell of the far corner.
    pub open spec fn touches(self, c: Pair) -> bool {
        &&& cell_coord_of(self.x) <= c.0 <= cell_coord_of(self.x + self.width)
        &&& cell_coord_of(self.y) <= c.1 <= cell_coord_of(self.y + self.height)
    }

    /// Every cell that the rectangle touches.
    pub open spec fn cells(self) -> Set<Pair> {
        Set::new(|c: Pair| self.touches(c))
    }

    /// The cells of the rectangle that come before `(column, row)` when the
    /// range is walked column by column, each column from its lowest row up.
    pub open spec fn cells_before(self, column: int, row: int) -> Set<Pair> {
        Set::new(|c: Pair| self.touches(c) && (c.0 < column || (c.0 == column && c.1 < row)))
    }
}

/// Half-open overlap of two rectangles, the first at `(x1, y1)` with
/// extent `(w1, h1)`, the second at `(x2, y2)` with extent `(w2, h2)`.
pub open spec fn rects_overlap(
    x1: int,
    y1: int,
    w1: int,
    h1: int,
    x2: int,
    y2: int,
    w2: int,
    h2: int,
) -> bool {
    x1 < x2 + w2 && x1 + w1 > x2 && y1 < y2 + h2 && y1 + h1 > y2
}

/// Whether the probe rectangle of an entity in cell `c` overlaps `query`.
/// The probe is anchored at the origin of the cell, not at the place where
/// the entity was inserted, and has the entity's recorded extent.
pub open spec fn probe_hits(c: Pair, extent: (int, int), query: Rect) -> bool {
    rects_overlap(
        cell_origin_of(c.0 as int),
        cell_origin_of(c.1 as int),
        extent.0,
        extent.1,
        query.x,
        query.y,
        query.width,
        query.height,
    )
}

/// The key of cell `c` in the secondary index: its row-major fold with the
/// cell size as row stride.
pub open spec fn cell_index(c: Pair) -> int {
    c.flattened(CELL_SIZE as int)
}

/// The flattened indices of a set of cells.
pub open spec fn cell_indices(cells: Set<Pair>) -> Set<int> {
    Set::new(|k: int| exists|c: Pair| cells.contains(c) && #[trigger] cell_index(c) == k)
}

/// What a grid holds.
pub struct GridState {
    /// For each populated cell, the ids registered there, in the order of
    /// their insertion and with repetitions.
    pub buckets: Map<Pair, Seq<usize>>,
    /// For each id, the extent `(width, height)` of its latest insertion.
    pub dimensions: Map<usize, (int, int)>,
    /// For each flattened cell index, the ids registered in any cell with
    /// that index.
    pub ids: Map<int, Set<usize>>,
}

impl GridState {
    /// The grid with no entity and no populated cell.
    pub open spec fn empty() -> GridState {
        GridState { buckets: Map::empty(), dimensions: Map::empty(), ids: Map::empty() }
    }

    /// The bucket of cell `c`, empty where the cell is not populated.
    pub open spec fn bucket(self, c: Pair) -> Seq<usize> {
        if self.buckets.contains_key(c) {
            self.buckets[c]
        } else {
            Seq::empty()
        }
    }

    /// The ids under flattened index `k`, none where the index has no entry.
    pub open spec fn indexed(self, k: int) -> Set<usize> {
        if self.ids.contains_key(k) {
            self.ids[k]
        } else {
            Set::empty()
        }
    }

    /// The three structures agree: a bucket is never empty, every id in the
    /// bucket of a cell has a recorded extent and is a member of the
    /// secondary index entry of that cell, and every id in the secondary
    /// index has a recorded extent.
    pub open spec fn wf(self) -> bool {
        &&& forall|c: Pair| #[trigger]
            self.buckets.contains_key(c) ==> self.buckets[c].len() > 0
                && self.ids.contains_key(cell_index(c))
        &&& forall|c: Pair, n: int|
            self.buckets.contains_key(c) && 0 <= n < self.buckets[c].len() ==> {
                &&& self.dimensions.contains_key(#[trigger] self.buckets[c][n])
                &&& self.ids[cell_index(c)].contains(self.buckets[c][n])
            }
        &&& forall|k: int, id: usize|
            self.ids.contains_key(k) && #[trigger] self.ids[k].contains(id)
                ==> self.dimensions.contains_key(id)
    }

    /// The grid after `id` has been registered in each cell of `cells` with
    /// extent `(width, height)`: the id is appended to the bucket of each
    /// of the cells, added to the secondary index entry of each of them,
    /// and its recorded extent is overwritten. With no cell, nothing
    /// changes.
    pub open spec fn register(self, cells: Set<Pair>, width: int, height: int, id: usize)
        -> GridState {
        GridState {
            buckets: Map::new(
                |c: Pair| self.buckets.contains_key(c) || cells.contains(c),
                |c: Pair|
                    if cells.contains(c) {
                        self.bucket(c).push(id)
                    } else {
                        self.buckets[c]
                    },
            ),
            dimensions: if cells.is_empty() {
                self.dimensions
            } else {
                self.dimensions.insert(id, (width, height))
            },
            ids: Map::new(
                |k: int| self.ids.contains_key(k) || cell_indices(cells).contains(k),
                |k: int|
                    if cell_indices(cells).contains(k) {
                        self.indexed(k).insert(id)
                    } else {
                        self.ids[k]
                    },
            ),
        }
    }

    /// The grid after the insertion of entity `id` with bounding box `r`.
    pub open spec fn insert(self, r: Rect, id: usize) -> GridState {
        self.register(r.cells(), r.width, r.height, id)
    }

    /// Whether one of the first `n` ids in the bucket of cell `c` has a
    /// probe rectangle that overlaps `query`.
    pub open spec fn hit_before(self, c: Pair, query: Rect, n: int) -> bool {
        exists|m: int|
            0 <= m < n && probe_hits(
                c,
                self.dimensions[#[trigger] self.bucket(c)[m]],
                query,
            )
    }

    /// Whether some id in the bucket of cell `c` has a probe rectangle that
    /// overlaps `query`.
    pub open spec fn cell_hit(self, c: Pair, query: Rect) -> bool {
        self.hit_before(c, query, self.bucket(c).len() as int)
    }

    /// What the cells of `cells` contribute to a query: for each cell with
    /// a hit, every id under the flattened index of that cell.
    pub open spec fn gather(self, cells: Set<Pair>, query: Rect) -> Set<usize> {
        Set::new(
            |id: usize|
                exists|c: Pair|
                    cells.contains(c) && #[trigger] self.cell_hit(c, query) && self.indexed(
                        cell_index(c),
                    ).contains(id),
        )
    }

    /// The ids that a query for `query` reports: every id under the
    /// flattened index of a touched cell in which some probe rectangle
    /// overlaps the query.
    pub open spec fn query(self, query: Rect) -> Set<usize> {
        self.gather(query.cells(), query)
    }
}

/// The flattened indices of a set of cells with one more cell are those of
/// the set and the index of that cell.
pub proof fn lemma_cell_indices_one_more(cells: Set<Pair>, c: Pair)
    ensures
        cell_indices(cells.insert(c)) == cell_indices(cells).insert(cell_index(c)),
        cell_indices(set![c]) == set![cell_index(c)],
{
    assert forall|k: int|
        cell_indices(cells).insert(cell_index(c)).contains(k) implies cell_indices(
            cells.insert(c),
        ).contains(k) by {
        let d = if k == cell_index(c) {
            c
        } else {
            choose|d: Pair| cells.contains(d) && cell_index(d) == k
        };
        assert(cells.insert(c).contains(d) && cell_index(d) == k);
    }
    assert(cell_indices(cells.insert(c)) =~= cell_indices(cells).insert(cell_index(c)));
    assert(cell_indices(set![c]).contains(cell_index(c))) by {
        assert(set![c].contains(c));
    }
    assert(cell_indices(set![c]) =~= set![cell_index(c)]);
}

/// Registering an id in a set of cells and then in one more cell is
/// registering it in all of them at once.
pub proof fn lemma_register_one_more(
    g: GridState,
    cells: Set<Pair>,
    c: Pair,
    width: int,
    height: int,
    id: usize,
)
    requires
        !cells.contains(c),
    ensures
        g.register(cells, width, height, id).register(set![c], width, height, id) == g.register(
            cells.insert(c),
            width,
            height,
            id,
        ),
{
    let both = g.register(cells, width, height, id).register(set![c], width, height, id);
    let once = g.register(cells.insert(c), width, height, id);
    lemma_cell_indices_one_more(cells, c);
    assert(set![c].contains(c) && cells.insert(c).contains(c));
    assert(both.buckets =~~= once.buckets);
    assert(both.dimensions =~= once.dimensions);
    assert(both.ids =~~= once.ids);
}

/// Registering an id in no cell changes nothing.
pub proof fn lemma_register_nowhere(g: GridState, width: int, height: int, id: usize)
    ensures
        g.register(Set::empty(), width, height, id) == g,
{
    let after = g.register(Set::empty(), width, height, id);
    assert(cell_indices(Set::<Pair>::empty()) =~= Set::<int>::empty());
    assert(after.buckets =~~= g.buckets);
    assert(after.ids =~~= g.ids);
}

/// Registration keeps the three structures in agreement.
pub proof fn lemma_register_preserves_wf(
    g: GridState,
    cells: Set<Pair>,
    width: int,
    height: int,
    id: usize,
)
    requires
        g.wf(),
    ensures
        g.register(cells, width, height, id).wf(),
{
    let after = g.register(cells, width, height, id);
    assert forall|c: Pair| cells.contains(c) implies cell_indices(cells).contains(
        #[trigger] cell_index(c),
    ) by {}
    assert forall|c: Pair, n: int|
        after.buckets.contains_key(c) && 0 <= n < after.buckets[c].len() implies {
            &&& after.dimensions.contains_key(#[trigger] after.buckets[c][n])
            &&& after.ids[cell_index(c)].contains(after.buckets[c][n])
        } by {
        if n < g.bucket(c).len() {
            assert(after.buckets[c][n] == g.buckets[c][n]);
        }
    }
    assert forall|k: int, e: usize|
        after.ids.contains_key(k) && #[trigger] after.ids[k].contains(e) implies
        after.dimensions.contains_key(e) by {
        if e != id {
            assert(g.ids[k].contains(e));
        }
    }
}

/// Whether one of the first `n + 1` ids in a bucket hits is decided by the
/// first `n` of them and the one after.
pub proof fn lemma_hit_before_one_more(g: GridState, c: Pair, query: Rect, n: int)
    requires
        0 <= n < g.bucket(c).len(),
    ensures
        g.hit_before(c, query, n + 1) <==> g.hit_before(c, query, n) || probe_hits(
            c,
            g.dimensions[g.bucket(c)[n]],
            query,
        ),
{
    if g.hit_before(c, query, n) {
        let m = choose|m: int|
            0 <= m < n && probe_hits(
                c,
                g.dimensions[#[trigger] g.bucket(c)[m]],
                query,
            );
        assert(0 <= m < n + 1);
    }
    if g.hit_before(c, query, n + 1) {
        let m = choose|m: int|
            0 <= m < n + 1 && probe_hits(
                c,
                g.dimensions[#[trigger] g.bucket(c)[m]],
                query,
            );
        assert(m < n || m == n);
    }
}

/// One more cell adds to what a set of cells contributes to a query
/// exactly the ids under its flattened index, and only if it has a hit.
pub proof fn lemma_gather_one_more(g: GridState, cells: Set<Pair>, c: Pair, query: Rect)
    ensures
        g.gather(cells.insert(c), query) == g.gather(cells, query).union(
            if g.cell_hit(c, query) {
                g.indexed(cell_index(c))
            } else {
                Set::empty()
            },
        ),
{
    let more = g.gather(cells.insert(c), query);
    let less = g.gather(cells, query);
    let gain = if g.cell_hit(c, query) {
        g.indexed(cell_index(c))
    } else {
        Set::empty()
    };
    assert forall|id: usize| less.union(gain).contains(id) implies more.contains(id) by {
        let d = if less.contains(id) {
            choose|d: Pair|
                cells.contains(d) && #[trigger] g.cell_hit(d, query) && g.indexed(
                    cell_index(d),
                ).contains(id)
        } else {
            c
        };
        assert(cells.insert(c).contains(d) && g.cell_hit(d, query));
    }
    assert(more =~= less.union(gain));
}

} // verus!
