use vstd::prelude::*;

verus! {

/// Width of a chunk, in blocks, along both horizontal axes.
pub const WIDTH: usize = 16;

/// Half of `WIDTH`: chunk footprints are centred on multiples of `WIDTH`.
pub const HALF_WIDTH: usize = 8;

/// Height of a chunk, in blocks.
pub const HEIGHT: usize = 256;

/// Number of vertical columns in a chunk (`WIDTH * WIDTH`).
pub const COLUMNS: usize = 256;

/// Number of cells in a chunk (`WIDTH * WIDTH * HEIGHT`).
pub const SIZE: usize = 65536;

/// Material of the deep cells of a column.
pub const FILL: u8 = 1;

/// Material of the three cells right under the surface.
pub const SUBSURFACE: u8 = 2;

/// Material of the topmost cell of a column.
pub const SURFACE: u8 = 3;

/// Number of subsurface cells under the surface cell.
pub const SUBSURFACE_DEPTH: usize = 3;

/// Coordinates of a chunk in the grid of chunks.
#[derive(Clone, Copy, Debug, PartialEq, Eq, Hash, Structural)]
pub struct ChunkId {
    pub x: i16,
    pub y: i16,
}

/// A terrain material identifier.
#[derive(Clone, Copy, Debug, PartialEq, Eq, Hash, Structural)]
pub struct Block(pub u8);

/// A generated tile of terrain: `SIZE` cells, each empty or holding a block.
#[derive(Clone, Debug, PartialEq, Eq)]
pub struct Chunk {
    pub id: ChunkId,
    pub blocks: Vec<Option<Block>>,
}

/// Flat position of the cell at `(x, y, z)` inside a chunk.
pub open spec fn block_index(x: int, y: int, z: int) -> int {
    z * (WIDTH * WIDTH) as int + y * WIDTH as int + x
}

/// World coordinates of the first column of chunk `id`.
pub open spec fn chunk_origin(id: ChunkId) -> (int, int) {
    (id.x * WIDTH as int - HALF_WIDTH as int, id.y * WIDTH as int - HALF_WIDTH as int)
}

/// World coordinates of column `c` of chunk `id`; column `c` holds the cells
/// whose flat index is `c` modulo `COLUMNS`, so its local x is `c % WIDTH` and
/// its local y is `c / WIDTH`.
pub open spec fn column_position(id: ChunkId, c: int) -> (int, int) {
    (chunk_origin(id).0 + c % WIDTH as int, chunk_origin(id).1 + c / WIDTH as int)
}

/// What the cell at height `z` of a column of terrain height `height` holds.
pub open spec fn cell(height: int, z: int) -> Option<Block> {
    if z >= height {
        None
    } else if z == height - 1 {
        Some(Block(SURFACE))
    } else if z >= height - 1 - SUBSURFACE_DEPTH as int {
        Some(Block(SUBSURFACE))
    } else {
        Some(Block(FILL))
    }
}

/// The cells of a chunk whose column `c` has terrain height `heights[c]`.
pub open spec fn terrain(heights: Seq<u16>) -> Seq<Option<Block>> {
    Seq::new(SIZE as nat, |i: int| cell(heights[i % COLUMNS as int] as int, i / COLUMNS as int))
}

impl ChunkId {
    /// World coordinates of the chunk's first column: chunk `(0, 0)` covers
    /// `[-HALF_WIDTH, HALF_WIDTH)` on both axes.
    pub fn starting_position(&self) -> (r: (i32, i32))
        ensures
            r.0 as int == chunk_origin(*self).0,
            r.1 as int == chunk_origin(*self).1,
    {
        let x = self.x as i32;
        let y = self.y as i32;
        assert(-600000 < x * 16 < 600000 && -600000 < y * 16 < 600000) by (nonlinear_arith)
            requires
                -32768 <= x < 32768,
                -32768 <= y < 32768,
        ;
        (
            x * WIDTH as i32 - HALF_WIDTH as i32,
            y * WIDTH as i32 - HALF_WIDTH as i32,
        )
    }

    /// World coordinates of every column of the chunk, in column order. The
    /// terrain height of a column is sampled at these coordinates, so that
    /// terrain is continuous across chunk borders.
    pub fn column_positions(&self) -> (r: Vec<(i32, i32)>)
        ensures
            r@.len() == COLUMNS,
            forall|c: int|
                0 <= c < COLUMNS ==> (#[trigger] r@[c]).0 as int == column_position(*self, c).0
                    && r@[c].1 as int == column_position(*self, c).1,
    {
        let start = self.starting_position();
        let mut r: Vec<(i32, i32)> = Vec::new();
        let mut c: usize = 0;
        while c < COLUMNS
            invariant
                c <= COLUMNS,
                r@.len() == c,
                start.0 as int == chunk_origin(*self).0,
                start.1 as int == chunk_origin(*self).1,
                forall|k: int|
                    0 <= k < c ==> (#[trigger] r@[k]).0 as int == column_position(*self, k).0
                        && r@[k].1 as int == column_position(*self, k).1,
            decreases COLUMNS - c,
        {
            let x = start.0 + (c % WIDTH) as i32;
            let y = start.1 + (c / WIDTH) as i32;
            r.push((x, y));
            c = c + 1;
        }
        r
    }
}

/// What a cell at height `z` of a column of height `height` holds.
fn cell_at(height: u16, z: usize) -> (r: Option<Block>)
    requires
        z < HEIGHT,
    ensures
        r == cell(height as int, z as int),
{
    let h = height as usize;
    if z >= h {
        None
    } else if z == h - 1 {
        Some(Block(SURFACE))
    } else if z + 1 + SUBSURFACE_DEPTH >= h {
        Some(Block(SUBSURFACE))
    } else {
        Some(Block(FILL))
    }
}

impl Chunk {
    /// A chunk is well formed when it holds exactly `SIZE` cells.
    pub open spec fn wf(&self) -> bool {
        self.blocks@.len() == SIZE
    }

    /// Flat position of the cell at `(x, y, z)`.
    pub fn get_block_index(x: usize, y: usize, z: usize) -> (r: usize)
        requires
            x < WIDTH,
            y < WIDTH,
            z < HEIGHT,
        ensures
            r == block_index(x as int, y as int, z as int),
            r < SIZE,
    {
        assert(z * 256 + y * 16 + x < 65536) by (nonlinear_arith)
            requires
                x < 16,
                y < 16,
                z < 256,
        ;
        z * (WIDTH * WIDTH) + y * WIDTH + x
    }

    /// Builds chunk `chunk_id` from the terrain height of each of its columns:
    /// in each column the topmost filled cell is surface, the three under it
    /// subsurface, the rest fill, and the cells at or above the height empty.
    pub fn new(chunk_id: ChunkId, heights: &Vec<u16>) -> (r: Chunk)
        requires
            heights@.len() == COLUMNS,
        ensures
            r.id == chunk_id,
            r.blocks@ == terrain(heights@),
            r.wf(),
    {
        let mut blocks: Vec<Option<Block>> = Vec::with_capacity(SIZE);
        let mut i: usize = 0;
        while i < SIZE
            invariant
                i <= SIZE,
                heights@.len() == COLUMNS,
                blocks@.len() == i,
                forall|j: int| 0 <= j < i ==> #[trigger] blocks@[j] == terrain(heights@)[j],
            decreases SIZE - i,
        {
            let z = i / COLUMNS;
            let b = cell_at(heights[i % COLUMNS], z);
            blocks.push(b);
            i = i + 1;
        }
        assert(blocks@ =~= terrain(heights@));
        Chunk { id: chunk_id, blocks }
    }

    /// A copy of this chunk, cell for cell.
    pub fn duplicate(&self) -> (r: Chunk)
        ensures
            r.id == self.id,
            r.blocks@ == self.blocks@,
    {
        let mut blocks: Vec<Option<Block>> = Vec::with_capacity(self.blocks.len());
        let mut i: usize = 0;
        while i < self.blocks.len()
            invariant
                i <= self.blocks@.len(),
                blocks@ == self.blocks@.subrange(0, i as int),
            decreases self.blocks@.len() - i,
        {
            blocks.push(self.blocks[i]);
            i = i + 1;
            assert(blocks@ =~= self.blocks@.subrange(0, i as int));
        }
        assert(blocks@ =~= self.blocks@);
        Chunk { id: self.id, blocks }
    }
}

/// The terrain of a chunk is a function of its column heights alone: two
/// chunks built for one id from the same heights hold the same cells.
pub proof fn lemma_generation_deterministic(a: Chunk, b: Chunk, id: ChunkId, heights: Seq<u16>)
    requires
        a.id == id && a.blocks@ == terrain(heights),
        b.id == id && b.blocks@ == terrain(heights),
    ensures
        a.id == b.id,
        a.blocks@ == b.blocks@,
{
}

/// The cell at `(x, y, z)` of a generated chunk is decided by the height of
/// column `(x, y)` alone: empty at or above it, surface just under it.
pub proof fn lemma_cell_of_column(heights: Seq<u16>, x: int, y: int, z: int)
    requires
        heights.len() == COLUMNS,
        0 <= x < WIDTH,
        0 <= y < WIDTH,
        0 <= z < HEIGHT,
    ensures
        terrain(heights)[block_index(x, y, z)] == cell(heights[y * WIDTH as int + x] as int, z),
{
    let i = block_index(x, y, z);
    assert(0 <= i < SIZE) by (nonlinear_arith)
        requires
            i == z * 256 + y * 16 + x,
            0 <= x < 16,
            0 <= y < 16,
            0 <= z < 256,
    ;
    assert(i % 256 == y * 16 + x && i / 256 == z) by (nonlinear_arith)
        requires
            i == z * 256 + y * 16 + x,
            0 <= x < 16,
            0 <= y < 16,
            0 <= z < 256,
    ;
}

} // verus!
