//! The spatial hash grid itself: three hash tables and the two operations
//! on them, insertion and query.

use vstd::prelude::*;
use vstd::std_specs::iter::IteratorSpec;
use std::collections::HashMap;
use std::collections::HashSet;
use crate::cell::{cell_coord, cell_coord_of, cell_origin, Pair, CELL_SIZE_LOG2};
use crate::model::{
    cell_index, cell_indices, lemma_cell_indices_one_more, lemma_gather_one_more,
    lemma_hit_before_one_more, lemma_register_nowhere, lemma_register_one_more,
    lemma_register_preserves_wf, probe_hits, rects_overlap, GridState, Rect,
};

verus! {

/// The key of a cell in the bucket table: row and column packed into one
/// 64-bit integer, the row in the upper half.
spec fn bucket_key_of(c: Pair) -> i64 {
    (c.1 * 0x1_0000_0000 + (c.0 + 0x8000_0000)) as i64
}

/// No two cells share a key in the bucket table.
proof fn lemma_bucket_key_injective(c: Pair, d: Pair)
    ensures
        bucket_key_of(c) == bucket_key_of(d) <==> c == d,
{
}

/// Packs a cell coordinate into its key in the bucket table.
fn bucket_key(c: Pair) -> (key: i64)
    ensures
        key == bucket_key_of(c),
{
    (c.1 as i64) * 0x1_0000_0000 + (c.0 as i64 + 0x8000_0000)
}

/// A uniform spatial hash grid. It remembers in which cells each entity was
/// registered and how large the entity is, but not where it is.
pub struct SpatialHashGrid {
    grid: HashMap<i64, Vec<usize>>,
    dimensions: HashMap<usize, (i32, i32)>,
    ids: HashMap<i64, HashSet<usize>>,
}

impl View for SpatialHashGrid {
    type V = GridState;

    closed spec fn view(&self) -> GridState {
        GridState {
            buckets: Map::new(
                |c: Pair| self.grid@.contains_key(bucket_key_of(c)),
                |c: Pair| self.grid@[bucket_key_of(c)]@,
            ),
            dimensions: Map::new(
                |id: usize| self.dimensions@.contains_key(id),
                |id: usize| (self.dimensions@[id].0 as int, self.dimensions@[id].1 as int),
            ),
            ids: Map::new(
                |k: int| i64::MIN <= k <= i64::MAX && self.ids@.contains_key(k as i64),
                |k: int| self.ids@[k as i64]@,
            ),
        }
    }
}

/// Adds every id of `src` to `result`.
fn merge_ids(result: &mut HashSet<usize>, src: &HashSet<usize>)
    ensures
        final(result)@ == old(result)@.union(src@),
{
    let ghost keys = src.iter().remaining();
    for id in it: src.iter()
        invariant
            it.seq() == keys,
            keys.unref().to_set() == src@,
            forall|e: usize|
                result@.contains(e) <==> old(result)@.contains(e) || exists|k: int|
                    0 <= k < it.index() && *keys[k] == e,
    {
        result.insert(*id);
    }
    assert forall|e: usize| src@.contains(e) implies exists|k: int|
        0 <= k < keys.len() && *keys[k] == e by {
        let k = choose|k: int| 0 <= k < keys.unref().len() && keys.unref()[k] == e;
        assert(*keys[k] == e);
    }
    assert forall|e: usize|
        (exists|k: int| 0 <= k < keys.len() && *keys[k] == e) implies src@.contains(e) by {
        let k = choose|k: int| 0 <= k < keys.len() && *keys[k] == e;
        assert(keys.unref()[k] == e);
    }
}

/// The ids of `set` as a vector, each once, in whatever order the set
/// hands them out.
fn collect_ids(set: &HashSet<usize>) -> (out: Vec<usize>)
    ensures
        out@.no_duplicates(),
        out@.to_set() == set@,
{
    let mut out: Vec<usize> = Vec::new();
    let ghost keys = set.iter().remaining();
    for id in it: set.iter()
        invariant
            it.seq() == keys,
            keys.unref().to_set() == set@,
            keys.no_duplicates(),
            out@.len() == it.index(),
            forall|k: int| 0 <= k < out@.len() ==> out@[k] == *keys[k],
    {
        out.push(*id);
    }
    assert(out@ =~= keys.unref());
    out
}

impl SpatialHashGrid {
    /// Whether the three tables agree with each other, as
    /// [`GridState::wf`] says.
    pub open spec fn wf(&self) -> bool {
        self@.wf()
    }

    /// An empty grid: no entity, no populated cell.
    pub fn new() -> (grid: Self)
        ensures
            grid.wf(),
            grid@ == GridState::empty(),
    {
        let grid = Self { grid: HashMap::new(), dimensions: HashMap::new(), ids: HashMap::new() };
        assert(grid@.buckets =~= GridState::empty().buckets);
        assert(grid@.dimensions =~= GridState::empty().dimensions);
        assert(grid@.ids =~= GridState::empty().ids);
        grid
    }

    /// Registers `id` in one cell.
    fn register_cell(&mut self, cell: Pair, width: i32, height: i32, id: usize)
        requires
            old(self).wf(),
        ensures
            final(self).wf(),
            final(self)@ == old(self)@.register(set![cell], width as int, height as int, id),
    {
        let stride: u32 = 1 << CELL_SIZE_LOG2;
        assert(1u32 << 8 == 256) by (bit_vector);
        let index = cell.to_index(stride);
        let key = bucket_key(cell);
        self.grid.entry(key).or_insert(Vec::new()).push(id);
        self.dimensions.insert(id, (width, height));
        self.ids.entry(index).or_insert(HashSet::new()).insert(id);
        proof {
            let after = old(self)@.register(set![cell], width as int, height as int, id);
            assert forall|c: Pair| bucket_key_of(c) == key <==> c == cell by {
                lemma_bucket_key_injective(c, cell);
            }
            assert(cell_indices(set![cell]) == set![index as int]) by {
                lemma_cell_indices_one_more(Set::empty(), cell);
            }
            assert(self@.buckets =~~= after.buckets);
            assert(self@.dimensions =~= after.dimensions);
            assert(self@.ids =~~= after.ids);
            lemma_register_preserves_wf(old(self)@, set![cell], width as int, height as int, id);
        }
    }

    /// Inserts entity `id` with the bounding box of minimum corner `(x, y)`
    /// and extent `(width, height)`: registers it in every cell between the
    /// cell of the minimum corner and the cell of the far corner. Earlier
    /// registrations of the same id stay; its recorded extent is
    /// overwritten. Where the far corner lies in a cell before that of the
    /// minimum corner, which only a negative extent brings about, nothing
    /// changes.
    pub fn insert(&mut self, x: i32, y: i32, width: i32, height: i32, id: usize)
        requires
            old(self).wf(),
        ensures
            final(self).wf(),
            final(self)@ == old(self)@.insert(
                Rect::at(x as int, y as int, width as int, height as int),
                id,
            ),
    {
        let x1: i32 = cell_coord(x as i64) as i32;
        let y1: i32 = cell_coord(y as i64) as i32;
        let x2: i32 = cell_coord(x as i64 + width as i64) as i32;
        let y2: i32 = cell_coord(y as i64 + height as i64) as i32;
        let ghost r = Rect::at(x as int, y as int, width as int, height as int);
        let ghost before = self@;
        proof {
            assert(r.cells_before(x1 as int, y1 as int) =~= Set::empty());
            lemma_register_nowhere(before, r.width, r.height, id);
        }
        let mut i: i32 = x1;
        while i <= x2
            invariant
                x1 == cell_coord_of(r.x),
                y1 == cell_coord_of(r.y),
                x2 == cell_coord_of(r.x + r.width),
                y2 == cell_coord_of(r.y + r.height),
                r == Rect::at(x as int, y as int, width as int, height as int),
                x1 <= i,
                i <= x2 + 1 || x2 < x1,
                self.wf(),
                self@ == before.register(
                    r.cells_before(i as int, y1 as int),
                    r.width,
                    r.height,
                    id,
                ),
            decreases x2 + 1 - i,
        {
            let mut j: i32 = y1;
            while j <= y2
                invariant
                    x1 == cell_coord_of(r.x),
                    y1 == cell_coord_of(r.y),
                    x2 == cell_coord_of(r.x + r.width),
                    y2 == cell_coord_of(r.y + r.height),
                    r == Rect::at(x as int, y as int, width as int, height as int),
                    x1 <= i <= x2,
                    y1 <= j,
                    j <= y2 + 1 || y2 < y1,
                    self.wf(),
                    self@ == before.register(
                        r.cells_before(i as int, j as int),
                        r.width,
                        r.height,
                        id,
                    ),
                decreases y2 + 1 - j,
            {
                let pair = Pair::from_coords(i, j);
                self.register_cell(pair, width, height, id);
                proof {
                    lemma_register_one_more(
                        before,
                        r.cells_before(i as int, j as int),
                        pair,
                        r.width,
                        r.height,
                        id,
                    );
                    assert(r.cells_before(i as int, j as int).insert(pair) =~= r.cells_before(
                        i as int,
                        j + 1,
                    ));
                }
                j = j + 1;
            }
            proof {
                assert(r.cells_before(i as int, j as int) =~= r.cells_before(i + 1, y1 as int));
            }
            i = i + 1;
        }
        proof {
            assert(r.cells_before(i as int, y1 as int) =~= r.cells());
        }
    }

    /// Whether two rectangles overlap, each taken as half-open: the first
    /// at `(x1, y1)` with extent `(w1, h1)`, the second at `(x2, y2)` with
    /// extent `(w2, h2)`. Rectangles that only share an edge do not overlap,
    /// nor does one with an extent of zero overlap anything.
    pub fn collides_with(
        &self,
        x1: i64,
        y1: i64,
        w1: i64,
        h1: i64,
        x2: i64,
        y2: i64,
        w2: i64,
        h2: i64,
    ) -> (hit: bool)
        ensures
            hit == rects_overlap(
                x1 as int,
                y1 as int,
                w1 as int,
                h1 as int,
                x2 as int,
                y2 as int,
                w2 as int,
                h2 as int,
            ),
    {
        (x1 as i128) < x2 as i128 + w2 as i128 && x1 as i128 + w1 as i128 > x2 as i128
            && (y1 as i128) < y2 as i128 + h2 as i128 && y1 as i128 + h1 as i128 > y2 as i128
    }

    /// Adds to `result` what one cell contributes to a query: if the probe
    /// rectangle of some id in the bucket of the cell overlaps the query
    /// rectangle, every id under the flattened index of the cell.
    fn query_cell(
        &self,
        cell: Pair,
        x: i32,
        y: i32,
        width: i32,
        height: i32,
        result: &mut HashSet<usize>,
    )
        requires
            self.wf(),
        ensures
            final(result)@ == old(result)@.union(
                if self@.cell_hit(cell, Rect::at(x as int, y as int, width as int, height as int)) {
                    self@.indexed(cell_index(cell))
                } else {
                    Set::empty()
                },
            ),
    {
        let ghost q = Rect::at(x as int, y as int, width as int, height as int);
        let ghost found = self@.indexed(cell_index(cell));
        if let Some(ids) = self.grid.get(&bucket_key(cell)) {
            let mut n: usize = 0;
            while n < ids.len()
                invariant
                    self.wf(),
                    self@.bucket(cell) == ids@,
                    self@.buckets.contains_key(cell),
                    found == self@.indexed(cell_index(cell)),
                    q == Rect::at(x as int, y as int, width as int, height as int),
                    n <= ids.len(),
                    result@ == old(result)@.union(
                        if self@.hit_before(cell, q, n as int) {
                            found
                        } else {
                            Set::empty()
                        },
                    ),
                decreases ids.len() - n,
            {
                let id = ids[n];
                let extent = *self.dimensions.get(&id).unwrap();
                let entity_x = cell_origin(cell.0);
                let entity_y = cell_origin(cell.1);
                let hit = self.collides_with(
                    entity_x,
                    entity_y,
                    extent.0 as i64,
                    extent.1 as i64,
                    x as i64,
                    y as i64,
                    width as i64,
                    height as i64,
                );
                if hit {
                    let stride: u32 = 1 << CELL_SIZE_LOG2;
                    assert(1u32 << 8 == 256) by (bit_vector);
                    let index = Pair::from_coords(
                        cell_coord(entity_x) as i32,
                        cell_coord(entity_y) as i32,
                    ).to_index(stride);
                    merge_ids(result, self.ids.get(&index).unwrap());
                }
                proof {
                    assert(hit == probe_hits(
                        cell,
                        self@.dimensions[self@.bucket(cell)[n as int]],
                        q,
                    ));
                    lemma_hit_before_one_more(self@, cell, q, n as int);
                    assert(result@ =~= old(result)@.union(
                        if self@.hit_before(cell, q, n + 1) {
                            found
                        } else {
                            Set::empty()
                        },
                    ));
                }
                n = n + 1;
            }
        }
    }

    /// The candidates for an overlap with the rectangle of minimum corner
    /// `(x, y)` and extent `(width, height)`, each id once, in no particular
    /// order. For each cell between the cell of the minimum corner and the
    /// cell of the far corner, the probe rectangle of each id in its bucket
    /// is tested against the query rectangle; one overlap in a cell brings in
    /// every id under the flattened index of that cell.
    pub fn query(&self, x: i32, y: i32, width: i32, height: i32) -> (result: Vec<usize>)
        requires
            self.wf(),
        ensures
            result@.no_duplicates(),
            result@.to_set() == self@.query(
                Rect::at(x as int, y as int, width as int, height as int),
            ),
            result@.len() == self@.query(
                Rect::at(x as int, y as int, width as int, height as int),
            ).len(),
    {
        let mut result: HashSet<usize> = HashSet::new();
        let x1: i32 = cell_coord(x as i64) as i32;
        let y1: i32 = cell_coord(y as i64) as i32;
        let x2: i32 = cell_coord(x as i64 + width as i64) as i32;
        let y2: i32 = cell_coord(y as i64 + height as i64) as i32;
        let ghost q = Rect::at(x as int, y as int, width as int, height as int);
        proof {
            assert(q.cells_before(x1 as int, y1 as int) =~= Set::empty());
        }
        let mut i: i32 = x1;
        while i <= x2
            invariant
                x1 == cell_coord_of(q.x),
                y1 == cell_coord_of(q.y),
                x2 == cell_coord_of(q.x + q.width),
                y2 == cell_coord_of(q.y + q.height),
                q == Rect::at(x as int, y as int, width as int, height as int),
                x1 <= i,
                i <= x2 + 1 || x2 < x1,
                self.wf(),
                result@ == self@.gather(q.cells_before(i as int, y1 as int), q),
            decreases x2 + 1 - i,
        {
            let mut j: i32 = y1;
            while j <= y2
                invariant
                    x1 == cell_coord_of(q.x),
                    y1 == cell_coord_of(q.y),
                    x2 == cell_coord_of(q.x + q.width),
                    y2 == cell_coord_of(q.y + q.height),
                    q == Rect::at(x as int, y as int, width as int, height as int),
                    x1 <= i <= x2,
                    y1 <= j,
                    j <= y2 + 1 || y2 < y1,
                    self.wf(),
                    result@ == self@.gather(q.cells_before(i as int, j as int), q),
                decreases y2 + 1 - j,
            {
                let pair = Pair::from_coords(i, j);
                self.query_cell(pair, x, y, width, height, &mut result);
                proof {
                    lemma_gather_one_more(self@, q.cells_before(i as int, j as int), pair, q);
                    assert(q.cells_before(i as int, j as int).insert(pair) =~= q.cells_before(
                        i as int,
                        j + 1,
                    ));
                }
                j = j + 1;
            }
            proof {
                assert(q.cells_before(i as int, j as int) =~= q.cells_before(i + 1, y1 as int));
            }
            i = i + 1;
        }
        proof {
            assert(q.cells_before(i as int, y1 as int) =~= q.cells());
        }
        let out = collect_ids(&result);
        proof {
            out@.unique_seq_to_set();
        }
        out
    }
}

} // verus!
