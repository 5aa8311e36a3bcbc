//! Axial cells of hex-prism structures, and the sparse grid that holds the prisms.

use vstd::prelude::*;
use std::collections::HashMap;
use crate::hash_keys::map_keys;

verus! {

broadcast use vstd::std_specs::hash::group_hash_axioms;

/// The cells of a wall: for each column `q_offset` in `0..width` (left to right), the levels
/// `0..height` (bottom to top), at axial row `start_r`.
pub open spec fn spec_wall_cells(start_q: int, start_r: int, width: int, height: int, columns: int) -> Seq<(i32, i32, i32)>
    decreases columns,
{
    if columns <= 0 {
        Seq::empty()
    } else {
        spec_wall_cells(start_q, start_r, width, height, columns - 1) + Seq::new(
            (if height > 0 { height } else { 0 }) as nat,
            |level: int| ((start_q + columns - 1) as i32, start_r as i32, level as i32),
        )
    }
}

/// The cells of a wall `width` prisms wide and `height` prisms tall from `(start_q, start_r)`.
pub open spec fn spec_wall(start_q: int, start_r: int, width: int, height: int) -> Seq<(i32, i32, i32)> {
    spec_wall_cells(start_q, start_r, width, height, if width > 0 { width } else { 0 })
}

/// Level `l` of column `qo` of a wall from `(start_q, start_r)` whose columns are `levels`
/// high sits at position `qo * levels + l`, at cell `(start_q + qo, start_r, l)`.
pub open spec fn wall_cell_at(cells: Seq<(i32, i32, i32)>, start_q: int, start_r: int, levels: int, qo: int, l: int) -> bool {
    let p = qo * levels + l;
    &&& 0 <= p < cells.len()
    &&& cells[p].0 == start_q + qo
    &&& cells[p].1 == start_r
    &&& cells[p].2 == l
}

/// The first `columns` columns of a wall, column by column from the left and each from the
/// bottom level up.
proof fn lemma_wall_columns(start_q: int, start_r: int, width: int, height: int, columns: int, qo: int, l: int)
    requires
        0 <= columns,
        i32::MIN <= start_q,
        start_q + columns - 1 <= i32::MAX || height <= 0,
        i32::MIN <= start_r <= i32::MAX,
        height <= i32::MAX,
    ensures
        spec_wall_cells(start_q, start_r, width, height, columns).len() == columns * (if height > 0 { height } else { 0 }),
        0 <= qo < columns && 0 <= l < height ==> wall_cell_at(
            spec_wall_cells(start_q, start_r, width, height, columns),
            start_q,
            start_r,
            height,
            qo,
            l,
        ),
    decreases columns,
{
    let h = if height > 0 { height } else { 0 };
    if columns > 0 {
        lemma_wall_columns(start_q, start_r, width, height, columns - 1, qo, l);
        assert((columns - 1) * h + h == columns * h) by (nonlinear_arith);
        if 0 <= qo < columns && 0 <= l < height {
            assert(0 <= qo * h) by (nonlinear_arith)
                requires
                    0 <= qo,
                    0 <= h,
            ;
            if qo < columns - 1 {
                assert(qo * h + l < (columns - 1) * h) by (nonlinear_arith)
                    requires
                        0 <= qo < columns - 1,
                        0 <= l < h,
                ;
            } else {
                assert(qo * h + l == (columns - 1) * h + l);
                assert(start_q + columns - 1 <= i32::MAX);
            }
        }
    } else {
        assert(columns * h == 0) by (nonlinear_arith)
            requires
                columns == 0,
        ;
    }
}

/// A wall `width` prisms wide and `height` high from `(start_q, start_r)` fills exactly
/// `width * height` cells (none when either is not positive): column `qo` at axial
/// `(start_q + qo, start_r)`, levels `0..height`, columns from the left and levels from the
/// bottom.
pub proof fn lemma_wall_cells(start_q: i32, start_r: i32, width: i32, height: i32)
    requires
        width > 0 && height > 0 ==> start_q + width - 1 <= i32::MAX,
    ensures
        spec_wall(start_q as int, start_r as int, width as int, height as int).len() == (if width > 0 && height > 0 {
            width * height
        } else {
            0
        }),
        forall|qo: int, l: int| 0 <= qo < width && 0 <= l < height ==> #[trigger] wall_cell_at(
            spec_wall(start_q as int, start_r as int, width as int, height as int),
            start_q as int,
            start_r as int,
            height as int,
            qo,
            l,
        ),
{
    let w = if width > 0 { width as int } else { 0 };
    lemma_wall_columns(start_q as int, start_r as int, width as int, height as int, w, 0, 0);
    if !(width > 0 && height > 0) {
        assert(w * (if height > 0 { height as int } else { 0 }) == 0) by (nonlinear_arith)
            requires
                w == 0 || height <= 0,
        ;
    }
    assert forall|qo: int, l: int| 0 <= qo < width && 0 <= l < height implies #[trigger] wall_cell_at(
        spec_wall(start_q as int, start_r as int, width as int, height as int),
        start_q as int,
        start_r as int,
        height as int,
        qo,
        l,
    ) by {
        lemma_wall_columns(start_q as int, start_r as int, width as int, height as int, w, qo, l);
    }
}

/// The `(q, r, level)` cells that a wall `width` prisms wide and `height` prisms tall fills,
/// starting at axial `(start_q, start_r)`, in the order they are placed.
pub fn wall_cells(start_q: i32, start_r: i32, width: i32, height: i32) -> (cells: Vec<(i32, i32, i32)>)
    requires
        width > 0 && height > 0 ==> start_q + width - 1 <= i32::MAX,
    ensures
        cells@ == spec_wall(start_q as int, start_r as int, width as int, height as int),
        cells@.len() == (if width > 0 && height > 0 { width * height } else { 0 }),
        forall|qo: int, l: int| 0 <= qo < width && 0 <= l < height ==> #[trigger] wall_cell_at(
            cells@,
            start_q as int,
            start_r as int,
            height as int,
            qo,
            l,
        ),
{
    proof {
        lemma_wall_cells(start_q, start_r, width, height);
    }
    let mut cells: Vec<(i32, i32, i32)> = Vec::new();
    let mut q_offset: i32 = 0;
    while q_offset < width
        invariant
            0 <= q_offset,
            width > 0 ==> q_offset <= width,
            width <= 0 ==> q_offset == 0,
            width > 0 && height > 0 ==> start_q + width - 1 <= i32::MAX,
            cells@ == spec_wall_cells(start_q as int, start_r as int, width as int, height as int, q_offset as int),
        decreases width - q_offset,
    {
        let ghost before = cells@;
        if height > 0 {
            let q = start_q + q_offset;
            let mut level: i32 = 0;
            while level < height
                invariant
                    0 <= level <= height,
                    q == start_q + q_offset,
                    cells@ == before + Seq::new(level as nat, |l: int| (q, start_r, l as i32)),
                decreases height - level,
            {
                cells.push((q, start_r, level));
                assert(cells@ =~= before + Seq::new((level + 1) as nat, |l: int| (q, start_r, l as i32)));
                level = level + 1;
            }
            proof {
                assert(Seq::new(level as nat, |l: int| (q, start_r, l as i32))
                    =~= Seq::new(height as nat, |l: int| ((start_q + q_offset + 1 - 1) as i32, start_r as i32, l as i32)));
                assert(cells@ =~= spec_wall_cells(start_q as int, start_r as int, width as int, height as int, q_offset + 1));
            }
        } else {
            proof {
                assert(cells@ =~= spec_wall_cells(start_q as int, start_r as int, width as int, height as int, q_offset + 1));
            }
        }
        q_offset = q_offset + 1;
    }
    cells
}

/// Offset that maps an `i32` coordinate into `0..2^32`.
pub const COORD_OFFSET: i64 = 2_147_483_648;

/// The grid key of cell `(q, r, level)`: the three coordinates, each shifted into `0..2^32`,
/// as the digits of one base-`2^32` number.
pub open spec fn spec_cell_key(q: i32, r: i32, level: i32) -> u128 {
    ((q + COORD_OFFSET) * 0x1_0000_0000_0000_0000 + (r + COORD_OFFSET) * 0x1_0000_0000 + (level + COORD_OFFSET)) as u128
}

/// The cell whose key is `key`.
pub open spec fn spec_key_cell(key: u128) -> (i32, i32, i32) {
    (
        (key / 0x1_0000_0000_0000_0000 - COORD_OFFSET) as i32,
        ((key / 0x1_0000_0000) % 0x1_0000_0000 - COORD_OFFSET) as i32,
        (key % 0x1_0000_0000 - COORD_OFFSET) as i32,
    )
}

/// Decoding a cell's key gives the cell back, so distinct cells never share a key.
pub proof fn lemma_cell_key_round_trip(q: i32, r: i32, level: i32)
    ensures
        spec_key_cell(spec_cell_key(q, r, level)) == (q, r, level),
{
    let a = q + COORD_OFFSET;
    let b = r + COORD_OFFSET;
    let c = level + COORD_OFFSET;
    let k = a * 0x1_0000_0000_0000_0000 + b * 0x1_0000_0000 + c;
    assert(0 <= a < 0x1_0000_0000 && 0 <= b < 0x1_0000_0000 && 0 <= c < 0x1_0000_0000);
    assert(k / 0x1_0000_0000_0000_0000 == a) by (nonlinear_arith)
        requires
            k == a * 0x1_0000_0000_0000_0000 + b * 0x1_0000_0000 + c,
            0 <= a < 0x1_0000_0000,
            0 <= b < 0x1_0000_0000,
            0 <= c < 0x1_0000_0000,
    ;
    assert(k / 0x1_0000_0000 == a * 0x1_0000_0000 + b) by (nonlinear_arith)
        requires
            k == a * 0x1_0000_0000_0000_0000 + b * 0x1_0000_0000 + c,
            0 <= a < 0x1_0000_0000,
            0 <= b < 0x1_0000_0000,
            0 <= c < 0x1_0000_0000,
    ;
    assert((a * 0x1_0000_0000 + b) % 0x1_0000_0000 == b) by (nonlinear_arith)
        requires
            0 <= a < 0x1_0000_0000,
            0 <= b < 0x1_0000_0000,
    ;
    assert(k % 0x1_0000_0000 == c) by (nonlinear_arith)
        requires
            k == a * 0x1_0000_0000_0000_0000 + b * 0x1_0000_0000 + c,
            0 <= a < 0x1_0000_0000,
            0 <= b < 0x1_0000_0000,
            0 <= c < 0x1_0000_0000,
    ;
}

/// Two cells share a key only if they are the same cell.
pub proof fn lemma_cell_key_injective(q1: i32, r1: i32, l1: i32, q2: i32, r2: i32, l2: i32)
    ensures
        spec_cell_key(q1, r1, l1) == spec_cell_key(q2, r2, l2) ==> (q1, r1, l1) == (q2, r2, l2),
{
    lemma_cell_key_round_trip(q1, r1, l1);
    lemma_cell_key_round_trip(q2, r2, l2);
}

/// Reading a cell right after a prism is placed in it gives that prism back, and placing it
/// leaves every other cell as it was (distinct cells never share a key).
pub proof fn lemma_grid_read_after_write<P>(
    cells: Map<u128, P>,
    q: i32,
    r: i32,
    level: i32,
    prism: P,
    q2: i32,
    r2: i32,
    level2: i32,
)
    ensures
        cells.insert(spec_cell_key(q, r, level), prism).contains_key(spec_cell_key(q, r, level)),
        cells.insert(spec_cell_key(q, r, level), prism)[spec_cell_key(q, r, level)] == prism,
        (q2, r2, level2) != (q, r, level) ==> {
            let after = cells.insert(spec_cell_key(q, r, level), prism);
            let k2 = spec_cell_key(q2, r2, level2);
            &&& after.contains_key(k2) == cells.contains_key(k2)
            &&& cells.contains_key(k2) ==> after[k2] == cells[k2]
        },
        !cells.remove(spec_cell_key(q, r, level)).contains_key(spec_cell_key(q, r, level)),
{
    lemma_cell_key_injective(q, r, level, q2, r2, level2);
}

/// The grid key of cell `(q, r, level)`.
pub fn cell_key(q: i32, r: i32, level: i32) -> (key: u128)
    ensures
        key == spec_cell_key(q, r, level),
{
    let a: u128 = (q as i64 + COORD_OFFSET) as u128;
    let b: u128 = (r as i64 + COORD_OFFSET) as u128;
    let c: u128 = (level as i64 + COORD_OFFSET) as u128;
    assert(a * 0x1_0000_0000_0000_0000 + b * 0x1_0000_0000 + c < 0x1_0000_0000_0000_0000_0000_0000) by (nonlinear_arith)
        requires
            a < 0x1_0000_0000,
            b < 0x1_0000_0000,
            c < 0x1_0000_0000,
    ;
    a * 0x1_0000_0000_0000_0000u128 + b * 0x1_0000_0000u128 + c
}

/// The cell whose key is `key`.
pub fn key_cell(key: u128) -> (cell: (i32, i32, i32))
    requires
        exists|q: i32, r: i32, level: i32| key == spec_cell_key(q, r, level),
    ensures
        cell == spec_key_cell(key),
        key == spec_cell_key(cell.0, cell.1, cell.2),
{
    let ghost w = choose|q: i32, r: i32, level: i32| key == spec_cell_key(q, r, level);
    proof {
        lemma_cell_key_round_trip(w.0, w.1, w.2);
    }
    let a: i64 = (key / 0x1_0000_0000_0000_0000u128) as i64;
    let b: i64 = ((key / 0x1_0000_0000u128) % 0x1_0000_0000u128) as i64;
    let c: i64 = (key % 0x1_0000_0000u128) as i64;
    ((a - COORD_OFFSET) as i32, (b - COORD_OFFSET) as i32, (c - COORD_OFFSET) as i32)
}

/// The prisms of a hex-prism structure, sparse, one per `(q, r, level)` cell, with a flag
/// raised whenever the set of prisms changes so that the mesh is rebuilt. `P` is the prism
/// (its geometry is the caller's).
pub struct HexPrismGrid<P> {
    prisms: HashMap<u128, P>,
    mesh_dirty: bool,
}

impl<P> HexPrismGrid<P> {
    /// The prisms, by cell key (`spec_cell_key`).
    pub closed spec fn cells(&self) -> Map<u128, P> {
        self.prisms@
    }

    /// Whether the mesh must be rebuilt.
    pub closed spec fn dirty(&self) -> bool {
        self.mesh_dirty
    }

    /// The grid holds finitely many prisms, and every stored key is the key of a cell.
    pub closed spec fn wf(&self) -> bool {
        &&& self.prisms@.dom().finite()
        &&& forall|k: u128| #[trigger] self.prisms@.contains_key(k) ==> exists|q: i32, r: i32, level: i32| k == spec_cell_key(q, r, level)
    }

    /// An empty grid whose mesh is up to date.
    pub fn new() -> (grid: HexPrismGrid<P>)
        ensures
            grid.wf(),
            grid.cells() == Map::<u128, P>::empty(),
            !grid.dirty(),
    {
        HexPrismGrid { prisms: HashMap::new(), mesh_dirty: false }
    }

    /// An empty grid with room reserved for `capacity` prisms.
    pub fn with_capacity(capacity: usize) -> (grid: HexPrismGrid<P>)
        ensures
            grid.wf(),
            grid.cells() == Map::<u128, P>::empty(),
            !grid.dirty(),
    {
        HexPrismGrid { prisms: HashMap::with_capacity(capacity), mesh_dirty: false }
    }

    /// Places `prism` in cell `(q, r, level)`; returns the prism it replaces, if any. The mesh
    /// must be rebuilt.
    pub fn insert(&mut self, q: i32, r: i32, level: i32, prism: P) -> (previous: Option<P>)
        requires
            old(self).wf(),
        ensures
            final(self).wf(),
            final(self).cells() == old(self).cells().insert(spec_cell_key(q, r, level), prism),
            previous == (if old(self).cells().contains_key(spec_cell_key(q, r, level)) {
                Some(old(self).cells()[spec_cell_key(q, r, level)])
            } else {
                None
            }),
            final(self).cells().dom().finite(),
            final(self).cells().len() == old(self).cells().len() + (if previous is Some { 0int } else { 1int }),
            final(self).dirty(),
    {
        let key = cell_key(q, r, level);
        self.mesh_dirty = true;
        let previous = self.prisms.insert(key, prism);
        proof {
            assert forall|k: u128| #[trigger] self.prisms@.contains_key(k) implies exists|a: i32, b: i32, c: i32| k == spec_cell_key(a, b, c) by {
                if k == key {
                    assert(k == spec_cell_key(q, r, level));
                } else {
                    assert(old(self).prisms@.contains_key(k));
                }
            }
        }
        previous
    }

    /// The prism in cell `(q, r, level)`, if any.
    pub fn get(&self, q: i32, r: i32, level: i32) -> (prism: Option<&P>)
        ensures
            prism == (if self.cells().contains_key(spec_cell_key(q, r, level)) {
                Some(&self.cells()[spec_cell_key(q, r, level)])
            } else {
                None
            }),
    {
        self.prisms.get(&cell_key(q, r, level))
    }

    /// Takes the prism out of cell `(q, r, level)`; the mesh must be rebuilt if there was one.
    pub fn remove(&mut self, q: i32, r: i32, level: i32) -> (removed: Option<P>)
        requires
            old(self).wf(),
        ensures
            final(self).wf(),
            final(self).cells() == old(self).cells().remove(spec_cell_key(q, r, level)),
            removed == (if old(self).cells().contains_key(spec_cell_key(q, r, level)) {
                Some(old(self).cells()[spec_cell_key(q, r, level)])
            } else {
                None
            }),
            final(self).cells().dom().finite(),
            final(self).cells().len() == old(self).cells().len() - (if removed is Some { 1int } else { 0int }),
            final(self).dirty() == (old(self).dirty() || removed is Some),
    {
        let removed = self.prisms.remove(&cell_key(q, r, level));
        if removed.is_some() {
            self.mesh_dirty = true;
        }
        proof {
            assert forall|k: u128| #[trigger] self.prisms@.contains_key(k) implies exists|a: i32, b: i32, c: i32| k == spec_cell_key(a, b, c) by {
                assert(old(self).prisms@.contains_key(k));
            }
        }
        removed
    }

    /// `remove` with the cell given as one `(q, r, level)` triple.
    pub fn remove_by_coord(&mut self, coord: (i32, i32, i32)) -> (removed: Option<P>)
        requires
            old(self).wf(),
        ensures
            final(self).wf(),
            final(self).cells() == old(self).cells().remove(spec_cell_key(coord.0, coord.1, coord.2)),
            removed == (if old(self).cells().contains_key(spec_cell_key(coord.0, coord.1, coord.2)) {
                Some(old(self).cells()[spec_cell_key(coord.0, coord.1, coord.2)])
            } else {
                None
            }),
            final(self).cells().dom().finite(),
            final(self).cells().len() == old(self).cells().len() - (if removed is Some { 1int } else { 0int }),
            final(self).dirty() == (old(self).dirty() || removed is Some),
    {
        self.remove(coord.0, coord.1, coord.2)
    }

    /// Number of prisms.
    pub fn len(&self) -> (n: usize)
        ensures
            self.cells().dom().finite(),
            n == self.cells().len(),
    {
        self.prisms.len()
    }

    /// Whether the grid holds no prism.
    pub fn is_empty(&self) -> (empty: bool)
        ensures
            empty == (self.cells().len() == 0),
    {
        self.prisms.len() == 0
    }

    /// Whether cell `(q, r, level)` holds a prism.
    pub fn contains(&self, q: i32, r: i32, level: i32) -> (found: bool)
        ensures
            found == self.cells().contains_key(spec_cell_key(q, r, level)),
    {
        self.prisms.contains_key(&cell_key(q, r, level))
    }

    /// The occupied cells, each once, in no particular order.
    pub fn coords(&self) -> (cells: Vec<(i32, i32, i32)>)
        requires
            self.wf(),
        ensures
            cells@.len() == self.cells().len(),
            forall|q: i32, r: i32, level: i32| #[trigger] cells@.contains((q, r, level))
                <==> self.cells().contains_key(spec_cell_key(q, r, level)),
            cells@.no_duplicates(),
    {
        let keys = map_keys(&self.prisms);
        let mut cells: Vec<(i32, i32, i32)> = Vec::new();
        let mut i: usize = 0;
        while i < keys.len()
            invariant
                self.wf(),
                i <= keys@.len(),
                keys@.no_duplicates(),
                keys@.to_set() == self.cells().dom(),
                cells@.len() == i,
                forall|j: int| 0 <= j < i ==> #[trigger] cells@[j] == spec_key_cell(keys@[j])
                    && keys@[j] == spec_cell_key(cells@[j].0, cells@[j].1, cells@[j].2),
            decreases keys@.len() - i,
        {
            let k = keys[i];
            proof {
                assert(keys@.to_set().contains(k));
            }
            let cell = key_cell(k);
            cells.push(cell);
            i = i + 1;
        }
        proof {
            keys@.unique_seq_to_set();
            assert forall|q: i32, r: i32, level: i32| #[trigger] cells@.contains((q, r, level))
                <==> self.cells().contains_key(spec_cell_key(q, r, level)) by {
                if cells@.contains((q, r, level)) {
                    let j = choose|j: int| 0 <= j < cells@.len() && cells@[j] == (q, r, level);
                    assert(keys@.to_set().contains(keys@[j]));
                }
                if self.cells().contains_key(spec_cell_key(q, r, level)) {
                    let key = spec_cell_key(q, r, level);
                    assert(keys@.to_set().contains(key));
                    let j = choose|j: int| 0 <= j < keys@.len() && keys@[j] == key;
                    lemma_cell_key_injective(q, r, level, cells@[j].0, cells@[j].1, cells@[j].2);
                }
            }
            assert forall|a: int, b: int| 0 <= a < b < cells@.len() implies cells@[a] != cells@[b] by {
                if cells@[a] == cells@[b] {
                    assert(keys@[a] == keys@[b]);
                }
            }
        }
        cells
    }

    /// Fills the cells of a wall (`wall_cells`) with prisms; `prism_at` makes the prism for
    /// a cell. A prism already in one of those cells is replaced; other cells are untouched.
    pub fn create_wall<F: Fn((i32, i32, i32)) -> P>(
        &mut self,
        start_q: i32,
        start_r: i32,
        width: i32,
        height: i32,
        prism_at: F,
    )
        requires
            old(self).wf(),
            width > 0 && height > 0 ==> start_q + width - 1 <= i32::MAX,
            forall|c: (i32, i32, i32)| call_requires(prism_at, (c,)),
        ensures
            final(self).wf(),
            ({
                let cells = spec_wall(start_q as int, start_r as int, width as int, height as int);
                &&& forall|k: u128| #[trigger] final(self).cells().contains_key(k) <==> (old(self).cells().contains_key(k)
                    || exists|i: int| 0 <= i < cells.len() && k == spec_cell_key(cells[i].0, cells[i].1, cells[i].2))
                &&& forall|i: int| 0 <= i < cells.len() ==> call_ensures(
                    prism_at,
                    (cells[i],),
                    #[trigger] final(self).cells()[spec_cell_key(cells[i].0, cells[i].1, cells[i].2)],
                )
                &&& forall|k: u128| #![trigger final(self).cells()[k]] old(self).cells().contains_key(k)
                    && !(exists|i: int| 0 <= i < cells.len() && k == spec_cell_key(cells[i].0, cells[i].1, cells[i].2))
                    ==> final(self).cells()[k] == old(self).cells()[k]
                &&& final(self).dirty() == (old(self).dirty() || cells.len() > 0)
            }),
    {
        let cells = wall_cells(start_q, start_r, width, height);
        let ghost wall = cells@;
        let mut i: usize = 0;
        while i < cells.len()
            invariant
                self.wf(),
                i <= cells@.len(),
                cells@ == wall,
                forall|c: (i32, i32, i32)| call_requires(prism_at, (c,)),
                forall|k: u128| #[trigger] self.cells().contains_key(k) <==> (old(self).cells().contains_key(k)
                    || exists|j: int| 0 <= j < i && k == spec_cell_key(wall[j].0, wall[j].1, wall[j].2)),
                forall|j: int| 0 <= j < i ==> call_ensures(
                    prism_at,
                    (wall[j],),
                    #[trigger] self.cells()[spec_cell_key(wall[j].0, wall[j].1, wall[j].2)],
                ),
                forall|k: u128| #![trigger self.cells()[k]] old(self).cells().contains_key(k)
                    && !(exists|j: int| 0 <= j < i && k == spec_cell_key(wall[j].0, wall[j].1, wall[j].2))
                    ==> self.cells()[k] == old(self).cells()[k],
                self.dirty() == (old(self).dirty() || i > 0),
            decreases cells@.len() - i,
        {
            let cell = cells[i];
            let prism = prism_at(cell);
            let ghost before = self.cells();
            let ghost key = spec_cell_key(cell.0, cell.1, cell.2);
            self.insert(cell.0, cell.1, cell.2, prism);
            proof {
                assert(cell == wall[i as int]);
                assert forall|k: u128| #[trigger] self.cells().contains_key(k) <==> (old(self).cells().contains_key(k)
                    || exists|j: int| 0 <= j < i + 1 && k == spec_cell_key(wall[j].0, wall[j].1, wall[j].2)) by {
                    if k == key {
                        assert(0 <= i < i + 1 && k == spec_cell_key(wall[i as int].0, wall[i as int].1, wall[i as int].2));
                    } else if exists|j: int| 0 <= j < i + 1 && k == spec_cell_key(wall[j].0, wall[j].1, wall[j].2) {
                        let j = choose|j: int| 0 <= j < i + 1 && k == spec_cell_key(wall[j].0, wall[j].1, wall[j].2);
                        assert(j < i);
                    }
                }
                assert forall|j: int| 0 <= j < i + 1 implies call_ensures(
                    prism_at,
                    (wall[j],),
                    #[trigger] self.cells()[spec_cell_key(wall[j].0, wall[j].1, wall[j].2)],
                ) by {
                    let kj = spec_cell_key(wall[j].0, wall[j].1, wall[j].2);
                    if kj == key {
                        lemma_cell_key_injective(wall[j].0, wall[j].1, wall[j].2, cell.0, cell.1, cell.2);
                        assert(wall[j] == cell);
                    } else {
                        assert(self.cells()[kj] == before[kj]);
                    }
                }
                assert forall|k: u128| #![trigger self.cells()[k]] old(self).cells().contains_key(k)
                    && !(exists|j: int| 0 <= j < i + 1 && k == spec_cell_key(wall[j].0, wall[j].1, wall[j].2))
                    implies self.cells()[k] == old(self).cells()[k] by {
                    assert(k != key) by {
                        if k == key {
                            assert(0 <= i < i + 1 && k == spec_cell_key(wall[i as int].0, wall[i as int].1, wall[i as int].2));
                        }
                    }
                    assert(!(exists|j: int| 0 <= j < i && k == spec_cell_key(wall[j].0, wall[j].1, wall[j].2))) by {
                        if exists|j: int| 0 <= j < i && k == spec_cell_key(wall[j].0, wall[j].1, wall[j].2) {
                            let j = choose|j: int| 0 <= j < i && k == spec_cell_key(wall[j].0, wall[j].1, wall[j].2);
                            assert(0 <= j < i + 1);
                        }
                    }
                }
            }
            i = i + 1;
        }
    }

    /// Removes every prism; the mesh must be rebuilt if there was one.
    pub fn clear(&mut self)
        ensures
            final(self).wf(),
            final(self).cells() == Map::<u128, P>::empty(),
            final(self).dirty() == (old(self).dirty() || old(self).cells().len() > 0),
    {
        if self.prisms.len() > 0 {
            self.mesh_dirty = true;
        }
        self.prisms.clear();
    }

    /// Whether the mesh must be rebuilt.
    pub fn needs_mesh_update(&self) -> (dirty: bool)
        ensures
            dirty == self.dirty(),
    {
        self.mesh_dirty
    }

    /// Records that the mesh was rebuilt.
    pub fn clear_mesh_dirty(&mut self)
        requires
            old(self).wf(),
        ensures
            final(self).cells() == old(self).cells(),
            final(self).wf(),
            !final(self).dirty(),
    {
        self.mesh_dirty = false;
    }
}

impl<P> Default for HexPrismGrid<P> {
    /// An empty grid whose mesh is up to date.
    fn default() -> (grid: HexPrismGrid<P>)
        ensures
            grid.wf(),
            grid.cells() == Map::<u128, P>::empty(),
            !grid.dirty(),
    {
        HexPrismGrid::new()
    }
}

} // verus!
