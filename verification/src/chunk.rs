//! The map is cut into square chunks of cells; a world position is a chunk
//! index and a position inside that chunk.
use vstd::prelude::*;
use crate::graphics::cell::Cell;
use crate::point::Point;

verus! {

/// Cells along each side of a chunk.
pub const CHUNK_WIDTH: i32 = 16;

/// The index of the chunk holding a world coordinate: rounded down, also
/// below zero.
pub open spec fn chunk_coord(i: int) -> int {
    i / (CHUNK_WIDTH as int)
}

/// The coordinate inside its chunk of a world coordinate.
pub open spec fn in_chunk_coord(i: int) -> int {
    i % (CHUNK_WIDTH as int)
}

/// A world coordinate is its chunk's origin plus its coordinate inside the
/// chunk.
pub proof fn law_chunk_coords_rebuild(i: int)
    ensures
        in_chunk_coord(i) + chunk_coord(i) * CHUNK_WIDTH == i,
        0 <= in_chunk_coord(i) < CHUNK_WIDTH,
{
}

/// Which chunk of the world: chunk `(x, y)` covers world positions `x * 16
/// .. x * 16 + 16` and likewise for `y`.
#[derive(Copy, Clone, Debug, PartialEq, Eq, Structural)]
pub struct ChunkIndex(pub Point);

impl ChunkIndex {
    pub fn new(x: i32, y: i32) -> (c: ChunkIndex)
        ensures
            c.0.x == x && c.0.y == y,
    {
        ChunkIndex(Point::new(x, y))
    }

    pub fn from_world_pos(pos: Point) -> (c: ChunkIndex)
        ensures
            c.0.x == chunk_coord(pos.x as int),
            c.0.y == chunk_coord(pos.y as int),
    {
        ChunkIndex::new(chunk_of(pos.x), chunk_of(pos.y))
    }
}

fn chunk_of(i: i32) -> (r: i32)
    ensures
        r == chunk_coord(i as int),
{
    if i < 0 {
        let r = ((i + 1) / CHUNK_WIDTH) - 1;
        assert(r == chunk_coord(i as int)) by (nonlinear_arith)
            requires
                i < 0,
                r == -((-(i + 1)) / 16) - 1,
        ;
        r
    } else {
        i / CHUNK_WIDTH
    }
}

fn in_chunk_of(i: i32) -> (r: i32)
    ensures
        r == in_chunk_coord(i as int),
{
    let i_new = i % CHUNK_WIDTH;
    if i_new < 0 {
        assert(CHUNK_WIDTH + i_new == in_chunk_coord(i as int)) by (nonlinear_arith)
            requires
                i < 0,
                i_new == -((-i) % 16),
                i_new < 0,
        ;
        CHUNK_WIDTH + i_new
    } else {
        i_new
    }
}

/// A position inside a chunk, each coordinate in `0..16`.
#[derive(Copy, Clone, Debug, PartialEq, Eq, Structural)]
pub struct ChunkPosition(pub Point);

/// The position lies inside a chunk.
pub open spec fn in_chunk(p: Point) -> bool {
    0 <= p.x < CHUNK_WIDTH && 0 <= p.y < CHUNK_WIDTH
}

impl ChunkPosition {
    /// The position inside a chunk given by `pos`, which must lie in it.
    pub fn from_point(pos: Point) -> (c: ChunkPosition)
        requires
            in_chunk(pos),
        ensures
            c.0 == pos,
    {
        ChunkPosition(pos)
    }

    /// The position inside its chunk of a world position.
    pub fn from_world(pos: &Point) -> (c: ChunkPosition)
        ensures
            c.0.x == in_chunk_coord(pos.x as int),
            c.0.y == in_chunk_coord(pos.y as int),
            in_chunk(c.0),
    {
        ChunkPosition(Point::new(in_chunk_of(pos.x), in_chunk_of(pos.y)))
    }
}

/// The cells of a chunk, row by row.
pub struct Chunk {
    cells: Vec<Cell>,
}

/// Where a position inside a chunk is kept among its cells.
pub open spec fn cell_index(p: Point) -> int {
    p.y * CHUNK_WIDTH + p.x
}

impl Chunk {
    pub closed spec fn cells(&self) -> Seq<Cell> {
        self.cells@
    }

    /// A chunk of the given cells, row by row.
    pub fn from_cells(cells: Vec<Cell>) -> (c: Chunk)
        ensures
            c.cells() == cells@,
    {
        Chunk { cells: cells }
    }

    fn index(&self, pos: ChunkPosition) -> (i: usize)
        requires
            in_chunk(pos.0),
        ensures
            i == cell_index(pos.0),
            i < CHUNK_WIDTH * CHUNK_WIDTH,
    {
        (pos.0.y * CHUNK_WIDTH + pos.0.x) as usize
    }

    /// Gets an immutable cell reference relative to within this Chunk.
    pub fn cell(&self, pos: ChunkPosition) -> (c: &Cell)
        requires
            in_chunk(pos.0),
            self.cells().len() == CHUNK_WIDTH * CHUNK_WIDTH,
        ensures
            *c == self.cells()[cell_index(pos.0)],
    {
        let index = self.index(pos);
        &self.cells[index]
    }

    /// Gets a mutable cell reference relative to within this Chunk.
    pub fn cell_mut(&mut self, pos: ChunkPosition) -> (c: &mut Cell)
        requires
            in_chunk(pos.0),
            old(self).cells().len() == CHUNK_WIDTH * CHUNK_WIDTH,
        ensures
            *c == old(self).cells()[cell_index(pos.0)],
            final(self).cells() == old(self).cells().update(cell_index(pos.0), *final(c)),
    {
        let index = self.index(pos);
        &mut self.cells[index]
    }

    /// Calculates the position in the world the point in the chunk represents.
    pub fn world_position_at(index: &ChunkIndex, pos: &ChunkPosition) -> (p: Point)
        requires
            i32::MIN <= index.0.x * CHUNK_WIDTH <= i32::MAX,
            i32::MIN <= index.0.y * CHUNK_WIDTH <= i32::MAX,
            i32::MIN <= pos.0.x + index.0.x * CHUNK_WIDTH <= i32::MAX,
            i32::MIN <= pos.0.y + index.0.y * CHUNK_WIDTH <= i32::MAX,
        ensures
            p.x == pos.0.x + index.0.x * CHUNK_WIDTH,
            p.y == pos.0.y + index.0.y * CHUNK_WIDTH,
    {
        Point::new(pos.0.x + index.0.x * CHUNK_WIDTH, pos.0.y + index.0.y * CHUNK_WIDTH)
    }

    /// The position in the world of the point `pos` of this chunk, at the
    /// place `index` in the grid of chunks.
    pub fn world_position(&self, index: ChunkIndex, pos: ChunkPosition) -> (p: Point)
        requires
            i32::MIN <= index.0.x * CHUNK_WIDTH <= i32::MAX,
            i32::MIN <= index.0.y * CHUNK_WIDTH <= i32::MAX,
            i32::MIN <= pos.0.x + index.0.x * CHUNK_WIDTH <= i32::MAX,
            i32::MIN <= pos.0.y + index.0.y * CHUNK_WIDTH <= i32::MAX,
        ensures
            p.x == pos.0.x + index.0.x * CHUNK_WIDTH,
            p.y == pos.0.y + index.0.y * CHUNK_WIDTH,
    {
        Chunk::world_position_at(&index, &pos)
    }

    /// The world position of the corner of the chunk at `index`, for chunks
    /// `size` wide.
    pub fn world_position_from_index(index: ChunkIndex, size: i32) -> (p: Point)
        requires
            i32::MIN <= index.0.x * size <= i32::MAX,
            i32::MIN <= index.0.y * size <= i32::MAX,
        ensures
            p.x == index.0.x * size,
            p.y == index.0.y * size,
    {
        Point::new(index.0.x * size, index.0.y * size)
    }
}

/// A chunk whose every cell is `cell`.
pub fn generate_blank(cell: Cell) -> (c: Chunk)
    ensures
        c.cells() == Seq::new((CHUNK_WIDTH * CHUNK_WIDTH) as nat, |i: int| cell),
{
    let mut cells: Vec<Cell> = Vec::new();
    let mut n: usize = 0;
    while n < 256
        invariant
            n <= 256,
            cells@ == Seq::new(n as nat, |i: int| cell),
        decreases 256 - n,
    {
        cells.push(cell);
        proof {
            assert(cells@ =~= Seq::new((n + 1) as nat, |i: int| cell));
        }
        n = n + 1;
    }
    Chunk { cells: cells }
}

} // verus!
