//! Tile-based culling data.
//!
//! The screen is cut into 16×16 pixel tiles; each tile remembers up to 32 indices of the
//! entities that may overlap it. Tiles are stored row by row: the tile in column `x` and
//! row `y` sits at index `y * tiles_x + x`.

use vstd::prelude::*;

verus! {

/// Tile edge length in pixels.
pub const TILE_SIZE: u32 = 16;

/// Number of entity indices a tile can hold.
pub const MAX_ENTITIES_PER_TILE: usize = 32;

/// Tile columns at 1920×1080.
pub const TILES_X_1080P: u32 = 120;

/// Tile rows at 1920×1080.
pub const TILES_Y_1080P: u32 = 68;

/// Tiles at 1920×1080.
pub const TOTAL_TILES_1080P: u32 = TILES_X_1080P * TILES_Y_1080P;

/// Bytes of one tile as the shader lays it out: count, padding, 32 indices.
pub const TILE_DATA_SIZE: usize = 136;

/// Bytes of the tile grid header as the shader lays it out.
pub const TILE_BUFFER_HEADER_SIZE: usize = 16;

/// `a / b` rounded up.
pub open spec fn ceil_div(a: int, b: int) -> int {
    (a + b - 1) / b
}

/// Index of the tile in column `x` and row `y` of a grid `tiles_x` tiles wide.
pub open spec fn tile_index(tiles_x: int, x: int, y: int) -> int {
    y * tiles_x + x
}

/// Per-tile culling data: the first `entity_count` entries of `entity_indices` are valid.
#[derive(Copy, Clone, Debug)]
pub struct TileData {
    /// Number of valid entity indices (0 to 32).
    pub entity_count: u32,
    /// Alignment padding.
    pub _padding: u32,
    /// Entity indices; only the first `entity_count` are valid.
    pub entity_indices: [u32; 32],
}

impl View for TileData {
    type V = Seq<u32>;

    /// The valid entity indices, in the order they were added.
    open spec fn view(&self) -> Seq<u32> {
        self.entity_indices@.take(self.entity_count as int)
    }
}

impl TileData {
    /// The count never exceeds the capacity.
    pub open spec fn wf(&self) -> bool {
        self.entity_count as int <= MAX_ENTITIES_PER_TILE as int
    }

    /// Whether another index fits.
    pub open spec fn has_room(&self) -> bool {
        (self.entity_count as int) < MAX_ENTITIES_PER_TILE as int
    }

    /// The tile after offering it `entity_index`: appended when there is room, unchanged otherwise.
    pub open spec fn with_entity(self, entity_index: u32) -> TileData {
        if self.has_room() {
            TileData {
                entity_count: (self.entity_count + 1) as u32,
                _padding: self._padding,
                entity_indices: vstd::array::spec_array_update(self.entity_indices, self.entity_count as int, entity_index),
            }
        } else {
            self
        }
    }

    /// The tile with its count reset and everything else kept.
    pub open spec fn cleared(self) -> TileData {
        TileData { entity_count: 0, ..self }
    }

    /// An empty tile, every field zero.
    pub fn new() -> (tile: TileData)
        ensures
            tile.wf(),
            tile.entity_count == 0,
            tile._padding == 0,
            tile.entity_indices@ == Seq::new(32, |i: int| 0u32),
            tile@ == Seq::<u32>::empty(),
    {
        let tile = TileData { entity_count: 0, _padding: 0, entity_indices: [0u32; 32] };
        assert(tile.entity_indices@ =~= Seq::new(32, |i: int| 0u32));
        tile
    }

    /// Resets the count to 0; the stored indices are left as they were.
    pub fn clear(&mut self)
        ensures
            *final(self) == old(self).cleared(),
            final(self)@ == Seq::<u32>::empty(),
    {
        self.entity_count = 0;
    }

    /// Appends an entity index; returns false, changing nothing, when the tile is full (its
    /// count is 32 or more).
    pub fn add_entity(&mut self, entity_index: u32) -> (added: bool)
        ensures
            added == old(self).has_room(),
            *final(self) == old(self).with_entity(entity_index),
            old(self).wf() ==> final(self).wf(),
            added ==> final(self)@ == old(self)@.push(entity_index),
            !added ==> final(self)@ == old(self)@,
    {
        if (self.entity_count as usize) >= MAX_ENTITIES_PER_TILE {
            return false;
        }
        let ghost old_tile = *self;
        let count = self.entity_count as usize;
        self.entity_indices[count] = entity_index;
        self.entity_count = self.entity_count + 1;
        proof {
            let expected = vstd::array::spec_array_update(old_tile.entity_indices, count as int, entity_index);
            assert(self.entity_indices =~= expected);
            assert(self@ =~= old_tile@.push(entity_index));
        }
        true
    }

    /// Whether the tile holds no entity.
    pub fn is_empty(&self) -> (empty: bool)
        ensures
            empty == (self.entity_count == 0),
    {
        self.entity_count == 0
    }

    /// Number of entities in the tile.
    pub fn len(&self) -> (n: usize)
        ensures
            n == self.entity_count,
    {
        self.entity_count as usize
    }

    /// The valid entity indices, in the order they were added.
    pub fn entity_iter(&self) -> (indices: Vec<u32>)
        requires
            self.wf(),
        ensures
            indices@ == self@,
    {
        let n = self.entity_count as usize;
        let mut indices: Vec<u32> = Vec::new();
        let mut i: usize = 0;
        while i < n
            invariant
                n == self.entity_count,
                n <= 32,
                i <= n,
                indices@ == self.entity_indices@.take(i as int),
            decreases n - i,
        {
            indices.push(self.entity_indices[i]);
            assert(self.entity_indices@.take(i as int).push(self.entity_indices@[i as int])
                =~= self.entity_indices@.take(i + 1));
            i = i + 1;
        }
        indices
    }
}

impl Default for TileData {
    /// An empty tile, every field zero.
    fn default() -> (tile: TileData)
        ensures
            tile.wf(),
            tile.entity_count == 0,
            tile._padding == 0,
            tile.entity_indices@ == Seq::new(32, |i: int| 0u32),
    {
        TileData::new()
    }
}

/// `t` after offering it the entity indices of `entities`, in order.
pub open spec fn with_entities(t: TileData, entities: Seq<u32>) -> TileData
    decreases entities.len(),
{
    if entities.len() == 0 {
        t
    } else {
        with_entities(t, entities.drop_last()).with_entity(entities.last())
    }
}

/// The smaller of `a` and `b`.
pub open spec fn min_int(a: int, b: int) -> int {
    if a <= b { a } else { b }
}

/// Offering a tile a run of entity indices (with no clear in between) keeps the first ones
/// that fit, in order: the tile then reads back what it held followed by the offered indices,
/// cut at 32, and counts exactly those.
pub proof fn lemma_tile_appends_read_back(t: TileData, entities: Seq<u32>)
    requires
        t.wf(),
    ensures
        with_entities(t, entities).wf(),
        with_entities(t, entities).entity_count == min_int((t@.len() + entities.len()) as int, MAX_ENTITIES_PER_TILE as int),
        with_entities(t, entities)@ == (t@ + entities).take(
            min_int((t@.len() + entities.len()) as int, MAX_ENTITIES_PER_TILE as int),
        ),
    decreases entities.len(),
{
    if entities.len() > 0 {
        let prefix = entities.drop_last();
        lemma_tile_appends_read_back(t, prefix);
        let u = with_entities(t, prefix);
        let e = entities.last();
        let n = min_int((t@.len() + prefix.len()) as int, MAX_ENTITIES_PER_TILE as int);
        assert(t@ + prefix =~= (t@ + entities).drop_last());
        if u.has_room() {
            let v = u.with_entity(e);
            let upd = vstd::array::spec_array_update(u.entity_indices, u.entity_count as int, e);
            assert(upd@ == u.entity_indices@.update(u.entity_count as int, e));
            assert(v@ =~= u@.push(e));
            assert((t@ + entities).take(n + 1) =~= (t@ + entities).take(n).push(e)) by {
                assert((t@ + entities)[n] == e);
            }
            assert((t@ + entities).take(n) =~= (t@ + prefix).take(n));
        } else {
            assert((t@ + entities).take(n) =~= (t@ + prefix).take(n));
        }
    } else {
        assert(t@ + entities =~= t@);
        assert(t@.take(t@.len() as int) =~= t@);
    }
}



/// Dimensions of the tile grid.
#[derive(Copy, Clone, Debug)]
pub struct TileBufferHeader {
    /// Tile columns.
    pub tiles_x: u32,
    /// Tile rows.
    pub tiles_y: u32,
    /// Tile edge in pixels (always 16).
    pub tile_size: u32,
    /// `tiles_x * tiles_y`.
    pub total_tiles: u32,
}

impl TileBufferHeader {
    /// The fields agree with one another.
    pub open spec fn wf(&self) -> bool {
        &&& self.tile_size == TILE_SIZE
        &&& self.total_tiles == self.tiles_x * self.tiles_y
    }

    /// Whether a grid for `width × height` pixels fits the header's 32-bit fields.
    pub open spec fn fits(width: u32, height: u32) -> bool {
        &&& width + TILE_SIZE <= u32::MAX
        &&& height + TILE_SIZE <= u32::MAX
        &&& ceil_div(width as int, TILE_SIZE as int) * ceil_div(height as int, TILE_SIZE as int) <= u32::MAX
    }

    /// The grid that covers `width × height` pixels with 16-pixel tiles, rounding up.
    pub fn for_resolution(width: u32, height: u32) -> (header: TileBufferHeader)
        requires
            TileBufferHeader::fits(width, height),
        ensures
            header.wf(),
            header.tiles_x == ceil_div(width as int, TILE_SIZE as int),
            header.tiles_y == ceil_div(height as int, TILE_SIZE as int),
    {
        let tiles_x = (width + TILE_SIZE - 1) / TILE_SIZE;
        let tiles_y = (height + TILE_SIZE - 1) / TILE_SIZE;
        TileBufferHeader { tiles_x, tiles_y, tile_size: TILE_SIZE, total_tiles: tiles_x * tiles_y }
    }

    /// The grid for 1920×1080: 120 × 68 tiles.
    pub fn for_1080p() -> (header: TileBufferHeader)
        ensures
            header.wf(),
            header.tiles_x == TILES_X_1080P,
            header.tiles_y == TILES_Y_1080P,
            header.total_tiles == TOTAL_TILES_1080P,
    {
        TileBufferHeader::for_resolution(1920, 1080)
    }
}

impl Default for TileBufferHeader {
    /// The grid for 1920×1080.
    fn default() -> (header: TileBufferHeader)
        ensures
            header.wf(),
            header.tiles_x == TILES_X_1080P,
            header.tiles_y == TILES_Y_1080P,
    {
        TileBufferHeader::for_1080p()
    }
}

/// The tile grid: its header and one `TileData` per tile, row by row.
pub struct TileBuffer {
    /// Grid dimensions.
    pub header: TileBufferHeader,
    /// One entry per tile.
    pub tiles: Vec<TileData>,
}

/// Whether the tile in column `x`, row `y` lies in the tile rectangle `[x0, x1) × [y0, y1)`.
pub open spec fn in_tile_rect(x: int, y: int, x0: int, x1: int, y0: int, y1: int) -> bool {
    x0 <= x < x1 && y0 <= y < y1
}

/// Number of tiles with room left among columns `[x0, x)` of row `y`.
pub open spec fn open_tiles_in_row(tiles: Seq<TileData>, tiles_x: int, y: int, x0: int, x: int) -> nat
    decreases x - x0,
{
    if x <= x0 {
        0
    } else {
        open_tiles_in_row(tiles, tiles_x, y, x0, x - 1) + if tiles[tile_index(tiles_x, x - 1, y)].has_room() {
            1nat
        } else {
            0nat
        }
    }
}

/// Number of tiles with room left in the rectangle of columns `[x0, x1)` and rows `[y0, y)`.
pub open spec fn open_tiles_in_rect(tiles: Seq<TileData>, tiles_x: int, x0: int, x1: int, y0: int, y: int) -> nat
    decreases y - y0,
{
    if y <= y0 {
        0
    } else {
        open_tiles_in_rect(tiles, tiles_x, x0, x1, y0, y - 1) + open_tiles_in_row(tiles, tiles_x, y - 1, x0, x1)
    }
}

/// The tile rectangle that a screen rectangle reaches, clipped to the grid:
/// `(first column, end column, first row, end row)`.
pub open spec fn covered_tiles(header: TileBufferHeader, min_x: u32, min_y: u32, max_x: u32, max_y: u32) -> (int, int, int, int) {
    let x1 = ceil_div(max_x as int, TILE_SIZE as int);
    let y1 = ceil_div(max_y as int, TILE_SIZE as int);
    (
        min_x as int / TILE_SIZE as int,
        if x1 < header.tiles_x { x1 } else { header.tiles_x as int },
        min_y as int / TILE_SIZE as int,
        if y1 < header.tiles_y { y1 } else { header.tiles_y as int },
    )
}

/// Column and row of distinct tiles differ in index.
proof fn lemma_tile_index_injective(tiles_x: int, xa: int, ya: int, xb: int, yb: int)
    requires
        0 <= xa < tiles_x,
        0 <= xb < tiles_x,
        0 <= ya,
        0 <= yb,
        tile_index(tiles_x, xa, ya) == tile_index(tiles_x, xb, yb),
    ensures
        xa == xb,
        ya == yb,
{
    vstd::arithmetic::div_mod::lemma_fundamental_div_mod_converse(tile_index(tiles_x, xa, ya), tiles_x, ya, xa);
    vstd::arithmetic::div_mod::lemma_fundamental_div_mod_converse(tile_index(tiles_x, xb, yb), tiles_x, yb, xb);
}

/// A tile index inside a grid of `tiles_y` rows is below `tiles_x * tiles_y`.
proof fn lemma_tile_index_bound(tiles_x: int, tiles_y: int, x: int, y: int)
    requires
        0 <= x < tiles_x,
        0 <= y < tiles_y,
    ensures
        0 <= tile_index(tiles_x, x, y) < tiles_x * tiles_y,
{
    assert(y * tiles_x + tiles_x <= tiles_y * tiles_x) by (nonlinear_arith)
        requires
            0 <= y < tiles_y,
            0 < tiles_x,
    ;
    assert(0 <= y * tiles_x) by (nonlinear_arith)
        requires
            0 <= y,
            0 < tiles_x,
    ;
    assert(tiles_y * tiles_x == tiles_x * tiles_y) by (nonlinear_arith);
}

/// Counting open tiles over a row only looks at that row.
proof fn lemma_row_count_frame(a: Seq<TileData>, b: Seq<TileData>, tiles_x: int, y: int, x0: int, x: int)
    requires
        forall|c: int| x0 <= c < x ==> #[trigger] a[tile_index(tiles_x, c, y)] == b[tile_index(tiles_x, c, y)],
    ensures
        open_tiles_in_row(a, tiles_x, y, x0, x) == open_tiles_in_row(b, tiles_x, y, x0, x),
    decreases x - x0,
{
    if x > x0 {
        lemma_row_count_frame(a, b, tiles_x, y, x0, x - 1);
    }
}

/// Counting open tiles over rows `[y0, y)` only looks at those rows.
proof fn lemma_rect_count_frame(
    a: Seq<TileData>,
    b: Seq<TileData>,
    tiles_x: int,
    x0: int,
    x1: int,
    y0: int,
    y: int,
)
    requires
        forall|c: int, r: int|
            x0 <= c < x1 && y0 <= r < y ==> #[trigger] a[tile_index(tiles_x, c, r)] == b[tile_index(tiles_x, c, r)],
    ensures
        open_tiles_in_rect(a, tiles_x, x0, x1, y0, y) == open_tiles_in_rect(b, tiles_x, x0, x1, y0, y),
    decreases y - y0,
{
    if y > y0 {
        lemma_rect_count_frame(a, b, tiles_x, x0, x1, y0, y - 1);
        assert forall|c: int| x0 <= c < x1 implies #[trigger] a[tile_index(tiles_x, c, y - 1)] == b[tile_index(tiles_x, c, y - 1)] by {
            assert(a[tile_index(tiles_x, c, y - 1)] == b[tile_index(tiles_x, c, y - 1)]);
        }
        lemma_row_count_frame(a, b, tiles_x, y - 1, x0, x1);
    }
}

/// The count of open tiles in a rectangle is at most its area.
proof fn lemma_rect_count_bound(tiles: Seq<TileData>, tiles_x: int, x0: int, x1: int, y0: int, y: int)
    requires
        x0 <= x1,
        y0 <= y,
    ensures
        open_tiles_in_rect(tiles, tiles_x, x0, x1, y0, y) <= (x1 - x0) * (y - y0),
    decreases y - y0,
{
    if y > y0 {
        lemma_rect_count_bound(tiles, tiles_x, x0, x1, y0, y - 1);
        lemma_row_count_bound(tiles, tiles_x, y - 1, x0, x1);
        assert((x1 - x0) * (y - 1 - y0) + (x1 - x0) == (x1 - x0) * (y - y0)) by (nonlinear_arith);
    }
}

/// The count of open tiles in a row segment is at most its length.
proof fn lemma_row_count_bound(tiles: Seq<TileData>, tiles_x: int, y: int, x0: int, x: int)
    requires
        x0 <= x,
    ensures
        open_tiles_in_row(tiles, tiles_x, y, x0, x) <= x - x0,
    decreases x - x0,
{
    if x > x0 {
        lemma_row_count_bound(tiles, tiles_x, y, x0, x - 1);
    }
}

impl TileBuffer {
    /// The header is consistent and there is one well-formed tile per grid cell.
    pub open spec fn wf(&self) -> bool {
        &&& self.header.wf()
        &&& self.tiles@.len() == self.header.total_tiles
        &&& forall|i: int| 0 <= i < self.tiles@.len() ==> (#[trigger] self.tiles@[i]).wf()
    }

    /// There is a tile for every grid cell, and cell indices fit in 32 bits (what adding an
    /// entity to the tiles under a rectangle needs).
    pub open spec fn grid_fits(&self) -> bool {
        &&& self.header.tiles_x * self.header.tiles_y <= self.tiles@.len()
        &&& self.header.tiles_x * self.header.tiles_y <= u32::MAX
    }

    /// A grid for `width × height` pixels with every tile empty.
    pub fn for_resolution(width: u32, height: u32) -> (buffer: TileBuffer)
        requires
            TileBufferHeader::fits(width, height),
        ensures
            buffer.wf(),
            buffer.header.tiles_x == ceil_div(width as int, TILE_SIZE as int),
            buffer.header.tiles_y == ceil_div(height as int, TILE_SIZE as int),
            forall|i: int| 0 <= i < buffer.tiles@.len() ==> {
                &&& (#[trigger] buffer.tiles@[i]).entity_count == 0
                &&& buffer.tiles@[i]._padding == 0
                &&& buffer.tiles@[i].entity_indices@ == Seq::new(32, |k: int| 0u32)
            },
    {
        let header = TileBufferHeader::for_resolution(width, height);
        let n = header.total_tiles as usize;
        let mut tiles: Vec<TileData> = Vec::new();
        let mut i: usize = 0;
        while i < n
            invariant
                i <= n,
                tiles@.len() == i,
                forall|j: int| 0 <= j < i ==> {
                    &&& (#[trigger] tiles@[j]).entity_count == 0
                    &&& tiles@[j]._padding == 0
                    &&& tiles@[j].entity_indices@ == Seq::new(32, |k: int| 0u32)
                },
            decreases n - i,
        {
            tiles.push(TileData::new());
            i = i + 1;
        }
        TileBuffer { header, tiles }
    }

    /// An empty grid for 1920×1080 (120 × 68 tiles).
    pub fn for_1080p() -> (buffer: TileBuffer)
        ensures
            buffer.wf(),
            buffer.header.tiles_x == TILES_X_1080P,
            buffer.header.tiles_y == TILES_Y_1080P,
            buffer.tiles@.len() == TOTAL_TILES_1080P,
            forall|i: int| 0 <= i < buffer.tiles@.len() ==> (#[trigger] buffer.tiles@[i])@ == Seq::<u32>::empty(),
    {
        TileBuffer::for_resolution(1920, 1080)
    }

    /// Resets every tile's count to 0, keeping the header and the stored indices.
    pub fn clear(&mut self)
        ensures
            final(self).header == old(self).header,
            final(self).tiles@.len() == old(self).tiles@.len(),
            forall|i: int| 0 <= i < final(self).tiles@.len() ==>
                #[trigger] final(self).tiles@[i] == old(self).tiles@[i].cleared(),
            old(self).wf() ==> final(self).wf(),
    {
        let n = self.tiles.len();
        let mut i: usize = 0;
        while i < n
            invariant
                n == self.tiles@.len(),
                n == old(self).tiles@.len(),
                self.header == old(self).header,
                i <= n,
                forall|j: int| 0 <= j < i ==> #[trigger] self.tiles@[j] == old(self).tiles@[j].cleared(),
                forall|j: int| i <= j < n ==> #[trigger] self.tiles@[j] == old(self).tiles@[j],
            decreases n - i,
        {
            let mut t = self.tiles[i];
            t.clear();
            self.tiles.set(i, t);
            i = i + 1;
        }
    }

    /// Whether pixel `(pixel_x, pixel_y)` lies on the grid.
    pub open spec fn on_grid(&self, pixel_x: u32, pixel_y: u32) -> bool {
        &&& (pixel_x as int / TILE_SIZE as int) < self.header.tiles_x
        &&& (pixel_y as int / TILE_SIZE as int) < self.header.tiles_y
    }

    /// Index of the tile under pixel `(pixel_x, pixel_y)` (meaningful on the grid).
    pub open spec fn pixel_tile(&self, pixel_x: u32, pixel_y: u32) -> int {
        tile_index(self.header.tiles_x as int, pixel_x as int / TILE_SIZE as int, pixel_y as int / TILE_SIZE as int)
    }

    /// Index of the tile holding pixel `(pixel_x, pixel_y)`, or `None` when the pixel lies past
    /// the grid.
    pub fn get_tile_index(&self, pixel_x: u32, pixel_y: u32) -> (index: Option<usize>)
        requires
            self.on_grid(pixel_x, pixel_y) ==> self.pixel_tile(pixel_x, pixel_y) <= u32::MAX,
        ensures
            index == (if self.on_grid(pixel_x, pixel_y) {
                Some(self.pixel_tile(pixel_x, pixel_y) as usize)
            } else {
                None::<usize>
            }),
    {
        let tile_x = pixel_x / TILE_SIZE;
        let tile_y = pixel_y / TILE_SIZE;
        if tile_x >= self.header.tiles_x || tile_y >= self.header.tiles_y {
            return None;
        }
        proof {
            assert(tile_y * self.header.tiles_x <= tile_y * self.header.tiles_x + tile_x);
        }
        Some((tile_y * self.header.tiles_x + tile_x) as usize)
    }

    /// The tile holding pixel `(pixel_x, pixel_y)`, or `None` past the grid.
    pub fn get_tile(&self, pixel_x: u32, pixel_y: u32) -> (tile: Option<&TileData>)
        requires
            self.on_grid(pixel_x, pixel_y) ==> self.pixel_tile(pixel_x, pixel_y) < self.tiles@.len(),
            self.on_grid(pixel_x, pixel_y) ==> self.pixel_tile(pixel_x, pixel_y) <= u32::MAX,
        ensures
            ({
                let x = pixel_x as int / TILE_SIZE as int;
                let y = pixel_y as int / TILE_SIZE as int;
                if x < self.header.tiles_x && y < self.header.tiles_y {
                    tile == Some(&self.tiles@[tile_index(self.header.tiles_x as int, x, y)])
                } else {
                    tile is None
                }
            }),
    {
        match self.get_tile_index(pixel_x, pixel_y) {
            Some(idx) => Some(&self.tiles[idx]),
            None => None,
        }
    }

    /// The tile holding pixel `(pixel_x, pixel_y)`, for changing it, or `None` past the grid.
    pub fn get_tile_mut(&mut self, pixel_x: u32, pixel_y: u32) -> (tile: Option<&mut TileData>)
        requires
            old(self).on_grid(pixel_x, pixel_y) ==> old(self).pixel_tile(pixel_x, pixel_y) < old(self).tiles@.len(),
            old(self).on_grid(pixel_x, pixel_y) ==> old(self).pixel_tile(pixel_x, pixel_y) <= u32::MAX,
        ensures
            ({
                let x = pixel_x as int / TILE_SIZE as int;
                let y = pixel_y as int / TILE_SIZE as int;
                let i = tile_index(old(self).header.tiles_x as int, x, y);
                if x < old(self).header.tiles_x && y < old(self).header.tiles_y {
                    &&& tile is Some
                    &&& *tile->0 == old(self).tiles@[i]
                    &&& final(self).header == old(self).header
                    &&& final(self).tiles@ == old(self).tiles@.update(i, *final(tile->0))
                } else {
                    &&& tile is None
                    &&& *final(self) == *old(self)
                }
            }),
    {
        match self.get_tile_index(pixel_x, pixel_y) {
            Some(idx) => Some(&mut self.tiles[idx]),
            None => None,
        }
    }

    /// Adds `entity_index` to every tile that the screen rectangle
    /// `[screen_min, screen_max]` reaches, clipped to the grid, and returns how many tiles
    /// took it (full tiles are skipped).
    pub fn add_entity_to_tiles(
        &mut self,
        entity_index: u32,
        screen_min_x: u32,
        screen_min_y: u32,
        screen_max_x: u32,
        screen_max_y: u32,
    ) -> (count: u32)
        requires
            old(self).grid_fits(),
            screen_max_x + TILE_SIZE <= u32::MAX,
            screen_max_y + TILE_SIZE <= u32::MAX,
        ensures
            old(self).wf() ==> final(self).wf(),
            final(self).header == old(self).header,
            final(self).tiles@.len() == old(self).tiles@.len(),
            forall|i: int| old(self).header.tiles_x * old(self).header.tiles_y <= i < old(self).tiles@.len()
                ==> #[trigger] final(self).tiles@[i] == old(self).tiles@[i],
            ({
                let (x0, x1, y0, y1) = covered_tiles(old(self).header, screen_min_x, screen_min_y, screen_max_x, screen_max_y);
                let tx = old(self).header.tiles_x as int;
                &&& forall|x: int, y: int|
                    0 <= x < tx && 0 <= y < old(self).header.tiles_y ==>
                        #[trigger] final(self).tiles@[tile_index(tx, x, y)] == if in_tile_rect(x, y, x0, x1, y0, y1) {
                            old(self).tiles@[tile_index(tx, x, y)].with_entity(entity_index)
                        } else {
                            old(self).tiles@[tile_index(tx, x, y)]
                        }
                &&& count == open_tiles_in_rect(old(self).tiles@, tx, x0, x1, y0, y1)
            }),
    {
        let tile_min_x = screen_min_x / TILE_SIZE;
        let tile_min_y = screen_min_y / TILE_SIZE;
        let tile_max_x = (screen_max_x + TILE_SIZE - 1) / TILE_SIZE;
        let tile_max_y = (screen_max_y + TILE_SIZE - 1) / TILE_SIZE;
        let tiles_x = self.header.tiles_x;
        let tiles_y = self.header.tiles_y;
        let end_x = if tile_max_x < tiles_x { tile_max_x } else { tiles_x };
        let end_y = if tile_max_y < tiles_y { tile_max_y } else { tiles_y };
        let ghost old_tiles = self.tiles@;
        let ghost tx = tiles_x as int;
        let ghost ty = tiles_y as int;

        let mut count: u32 = 0;
        let mut tile_y = tile_min_y;
        while tile_y < end_y
            invariant
                tx * ty <= old_tiles.len(),
                tx * ty <= u32::MAX,
                self.tiles@.len() == old_tiles.len(),
                forall|i: int| tx * ty <= i < old_tiles.len() ==> #[trigger] self.tiles@[i] == old_tiles[i],
                old(self).wf() ==> self.wf(),
                self.header == old(self).header,
                tiles_x == self.header.tiles_x,
                tiles_y == self.header.tiles_y,
                tx == tiles_x,
                ty == tiles_y,
                old_tiles == old(self).tiles@,
                end_x <= tiles_x,
                end_y <= tiles_y,
                tile_min_y <= end_y ==> tile_min_y <= tile_y <= end_y,
                tile_min_y > end_y ==> tile_y == tile_min_y,
                forall|x: int, y: int|
                    0 <= x < tx && 0 <= y < ty ==> #[trigger] self.tiles@[tile_index(tx, x, y)] == if in_tile_rect(x, y, tile_min_x as int, end_x as int, tile_min_y as int, tile_y as int) {
                        old_tiles[tile_index(tx, x, y)].with_entity(entity_index)
                    } else {
                        old_tiles[tile_index(tx, x, y)]
                    },
                count == open_tiles_in_rect(old_tiles, tx, tile_min_x as int, end_x as int, tile_min_y as int, tile_y as int),
                count <= (if end_x > tile_min_x { end_x - tile_min_x } else { 0 }) * (tile_y - tile_min_y),
            decreases end_y - tile_y,
        {
            let ghost row_start = self.tiles@;
            let ghost count_before = count as int;
            let mut tile_x = tile_min_x;
            while tile_x < end_x
                invariant
                    tx * ty <= old_tiles.len(),
                    tx * ty <= u32::MAX,
                    self.tiles@.len() == old_tiles.len(),
                    forall|i: int| tx * ty <= i < old_tiles.len() ==> #[trigger] self.tiles@[i] == old_tiles[i],
                    old(self).wf() ==> self.wf(),
                    self.header == old(self).header,
                    tiles_x == self.header.tiles_x,
                    tiles_y == self.header.tiles_y,
                    tx == tiles_x,
                    ty == tiles_y,
                    old_tiles == old(self).tiles@,
                    end_x <= tiles_x,
                    end_y <= tiles_y,
                    tile_min_y <= tile_y < end_y,
                    tile_min_x <= end_x ==> tile_min_x <= tile_x <= end_x,
                    tile_min_x > end_x ==> tile_x == tile_min_x,
                    forall|x: int, y: int|
                        0 <= x < tx && 0 <= y < ty ==> #[trigger] self.tiles@[tile_index(tx, x, y)] == if in_tile_rect(x, y, tile_min_x as int, end_x as int, tile_min_y as int, tile_y as int)
                            || (y == tile_y && tile_min_x <= x < tile_x) {
                            old_tiles[tile_index(tx, x, y)].with_entity(entity_index)
                        } else {
                            old_tiles[tile_index(tx, x, y)]
                        },
                    count == count_before + open_tiles_in_row(old_tiles, tx, tile_y as int, tile_min_x as int, tile_x as int),
                    count_before == open_tiles_in_rect(old_tiles, tx, tile_min_x as int, end_x as int, tile_min_y as int, tile_y as int),
                    count_before <= (if end_x > tile_min_x { end_x - tile_min_x } else { 0 }) * (tile_y - tile_min_y),
                decreases end_x - tile_x,
            {
                proof {
                    lemma_tile_index_bound(tx, ty, tile_x as int, tile_y as int);
                    lemma_row_count_bound(old_tiles, tx, tile_y as int, tile_min_x as int, tile_x as int);
                    assert((end_x - tile_min_x) * (tile_y - tile_min_y) + (tile_x - tile_min_x) < (end_x - tile_min_x) * (tile_y - tile_min_y + 1)) by (nonlinear_arith)
                        requires tile_min_x <= tile_x < end_x;
                    assert((end_x - tile_min_x) * (tile_y - tile_min_y + 1) <= tx * ty) by (nonlinear_arith)
                        requires
                            0 <= end_x - tile_min_x <= tx,
                            0 <= tile_y - tile_min_y + 1 <= ty;
                }
                let idx = (tile_y * tiles_x + tile_x) as usize;
                let ghost before = self.tiles@;
                let mut t = self.tiles[idx];
                let added = t.add_entity(entity_index);
                self.tiles.set(idx, t);
                if added {
                    count = count + 1;
                }
                proof {
                    assert forall|x: int, y: int|
                        0 <= x < tx && 0 <= y < ty implies #[trigger] self.tiles@[tile_index(tx, x, y)] == if in_tile_rect(x, y, tile_min_x as int, end_x as int, tile_min_y as int, tile_y as int)
                            || (y == tile_y && tile_min_x <= x < tile_x + 1) {
                            old_tiles[tile_index(tx, x, y)].with_entity(entity_index)
                        } else {
                            old_tiles[tile_index(tx, x, y)]
                        } by {
                        lemma_tile_index_bound(tx, ty, x, y);
                        if tile_index(tx, x, y) == idx {
                            lemma_tile_index_injective(tx, x, y, tile_x as int, tile_y as int);
                        } else {
                            assert(self.tiles@[tile_index(tx, x, y)] == before[tile_index(tx, x, y)]);
                            if y == tile_y && x == tile_x {
                                assert(false);
                            }
                        }
                    }
                    assert(before[idx as int] == old_tiles[idx as int]);
                    assert forall|i: int| tx * ty <= i < old_tiles.len() implies #[trigger] self.tiles@[i] == old_tiles[i] by {
                        assert(self.tiles@[i] == before[i]);
                    }
                    if old(self).wf() {
                        assert forall|i: int| 0 <= i < self.tiles@.len() implies (#[trigger] self.tiles@[i]).wf() by {
                            if i != idx {
                                assert(self.tiles@[i] == before[i]);
                            }
                        }
                    }
                }
                tile_x = tile_x + 1;
            }
            proof {
                if tile_min_x > end_x {
                    assert(open_tiles_in_row(old_tiles, tx, tile_y as int, tile_min_x as int, end_x as int) == 0);
                }
                assert(open_tiles_in_rect(old_tiles, tx, tile_min_x as int, end_x as int, tile_min_y as int, tile_y + 1)
                    == count_before + open_tiles_in_row(old_tiles, tx, tile_y as int, tile_min_x as int, end_x as int));
                lemma_row_count_bound(old_tiles, tx, tile_y as int, tile_min_x as int, tile_x as int);
                assert(count_before + (tile_x - tile_min_x) <= (if end_x > tile_min_x { end_x - tile_min_x } else { 0 }) * (tile_y + 1 - tile_min_y)) by (nonlinear_arith)
                    requires
                        count_before <= (if end_x > tile_min_x { end_x - tile_min_x } else { 0 }) * (tile_y - tile_min_y),
                        tile_min_x <= end_x ==> tile_x == end_x,
                        tile_min_x > end_x ==> tile_x == tile_min_x;
                assert forall|x: int, y: int|
                    0 <= x < tx && 0 <= y < ty implies #[trigger] self.tiles@[tile_index(tx, x, y)] == if in_tile_rect(x, y, tile_min_x as int, end_x as int, tile_min_y as int, tile_y + 1) {
                        old_tiles[tile_index(tx, x, y)].with_entity(entity_index)
                    } else {
                        old_tiles[tile_index(tx, x, y)]
                    } by {
                    assert(self.tiles@[tile_index(tx, x, y)] == if in_tile_rect(x, y, tile_min_x as int, end_x as int, tile_min_y as int, tile_y as int)
                            || (y == tile_y && tile_min_x <= x < tile_x) {
                            old_tiles[tile_index(tx, x, y)].with_entity(entity_index)
                        } else {
                            old_tiles[tile_index(tx, x, y)]
                        });
                }
            }
            tile_y = tile_y + 1;
        }
        proof {
            if tile_min_y > end_y {
                assert(open_tiles_in_rect(old_tiles, tx, tile_min_x as int, end_x as int, tile_min_y as int, end_y as int) == 0);
                assert(open_tiles_in_rect(old_tiles, tx, tile_min_x as int, end_x as int, tile_min_y as int, tile_y as int) == 0);
                assert forall|x: int, y: int| 0 <= x < tx && 0 <= y < ty implies
                    !in_tile_rect(x, y, tile_min_x as int, end_x as int, tile_min_y as int, end_y as int)
                    && !in_tile_rect(x, y, tile_min_x as int, end_x as int, tile_min_y as int, tile_y as int) by {}
            }
            let (x0, x1, y0, y1) = covered_tiles(old(self).header, screen_min_x, screen_min_y, screen_max_x, screen_max_y);
            assert(x0 == tile_min_x && x1 == end_x && y0 == tile_min_y && y1 == end_y);
        }
        count
    }

    /// Bytes the GPU buffer needs: the header followed by every tile.
    pub fn gpu_buffer_size(&self) -> (size: usize)
        requires
            TILE_BUFFER_HEADER_SIZE + self.tiles@.len() * TILE_DATA_SIZE <= usize::MAX,
        ensures
            size == TILE_BUFFER_HEADER_SIZE + self.tiles@.len() * TILE_DATA_SIZE,
    {
        TILE_BUFFER_HEADER_SIZE + self.tiles.len() * TILE_DATA_SIZE
    }
}

impl Default for TileBuffer {
    /// An empty grid for 1920×1080.
    fn default() -> (buffer: TileBuffer)
        ensures
            buffer.wf(),
            buffer.header.tiles_x == TILES_X_1080P,
            buffer.header.tiles_y == TILES_Y_1080P,
    {
        TileBuffer::for_1080p()
    }
}

} // verus!
