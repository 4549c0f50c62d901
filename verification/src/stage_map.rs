use vstd::prelude::*;

use crate::chunk_grammar::{ChunkView, PlacedChunk, Port, Tile, TileKind, MAP_SIZE};
use crate::placement::{
    in_isize, ports_shift_fit, shift_ports, shift_ports_seq, shift_tiles, shift_tiles_seq,
    tiles_shift_fit,
};
use crate::stone_type::StoneType;

verus! {

// ---------------------------------------------------------------------------
// The wall frame around the playable area.
// ---------------------------------------------------------------------------

/// A cell of the full grid belongs to the wall frame of width `m`.
pub open spec fn is_margin_cell(x: int, y: int, m: (isize, isize)) -> bool {
    x < m.0 || x >= MAP_SIZE.0 - m.0 || y < m.1 || y >= MAP_SIZE.1 - m.1
}

/// Wall tiles of column `x`, for rows `0..ny`, bottom up.
pub open spec fn margin_column(x: int, ny: int, m: (isize, isize)) -> Seq<Tile>
    decreases ny,
{
    if ny <= 0 {
        Seq::empty()
    } else {
        let prev = margin_column(x, ny - 1, m);
        if is_margin_cell(x, ny - 1, m) {
            prev.push(Tile { x: x as isize, y: (ny - 1) as isize, kind: TileKind::Wall })
        } else {
            prev
        }
    }
}

/// Wall tiles of columns `0..nx`, column by column.
pub open spec fn margin_grid(nx: int, m: (isize, isize)) -> Seq<Tile>
    decreases nx,
{
    if nx <= 0 {
        Seq::empty()
    } else {
        margin_grid(nx - 1, m) + margin_column(nx - 1, MAP_SIZE.1 as int, m)
    }
}

/// The full wall frame of the grid.
pub open spec fn spec_margin_tiles(m: (isize, isize)) -> Seq<Tile> {
    margin_grid(MAP_SIZE.0 as int, m)
}

proof fn lemma_margin_column(x: int, ny: int, m: (isize, isize))
    requires
        0 <= x <= isize::MAX,
        0 <= ny <= isize::MAX,
    ensures
        forall|i: int| 0 <= i < margin_column(x, ny, m).len() ==> {
            let t = #[trigger] margin_column(x, ny, m)[i];
            &&& t.x == x
            &&& 0 <= t.y < ny
            &&& t.kind == TileKind::Wall
            &&& is_margin_cell(x, t.y as int, m)
        },
        forall|y: int| 0 <= y < ny && is_margin_cell(x, y, m) ==> margin_column(x, ny, m).contains(
            Tile { x: x as isize, y: y as isize, kind: TileKind::Wall },
        ),
    decreases ny,
{
    if ny > 0 {
        lemma_margin_column(x, ny - 1, m);
        let prev = margin_column(x, ny - 1, m);
        let cur = margin_column(x, ny, m);
        assert forall|y: int| 0 <= y < ny && is_margin_cell(x, y, m) implies cur.contains(
            Tile { x: x as isize, y: y as isize, kind: TileKind::Wall },
        ) by {
            let w = Tile { x: x as isize, y: y as isize, kind: TileKind::Wall };
            if y < ny - 1 {
                let k = choose|k: int| 0 <= k < prev.len() && prev[k] == w;
                assert(cur[k] == w);
            } else {
                assert(cur[prev.len() as int] == w);
            }
        }
        assert forall|i: int| 0 <= i < cur.len() implies {
            let t = #[trigger] cur[i];
            &&& t.x == x
            &&& 0 <= t.y < ny
            &&& t.kind == TileKind::Wall
            &&& is_margin_cell(x, t.y as int, m)
        } by {
            if i < prev.len() {
                assert(cur[i] == prev[i]);
            }
        }
    }
}

proof fn lemma_margin_grid(nx: int, m: (isize, isize))
    requires
        0 <= nx <= isize::MAX,
    ensures
        forall|i: int| 0 <= i < margin_grid(nx, m).len() ==> {
            let t = #[trigger] margin_grid(nx, m)[i];
            &&& 0 <= t.x < nx
            &&& 0 <= t.y < MAP_SIZE.1
            &&& t.kind == TileKind::Wall
            &&& is_margin_cell(t.x as int, t.y as int, m)
        },
        forall|x: int, y: int|
            0 <= x < nx && 0 <= y < MAP_SIZE.1 && is_margin_cell(x, y, m) ==> margin_grid(nx, m).contains(
                Tile { x: x as isize, y: y as isize, kind: TileKind::Wall },
            ),
    decreases nx,
{
    if nx > 0 {
        lemma_margin_grid(nx - 1, m);
        lemma_margin_column(nx - 1, MAP_SIZE.1 as int, m);
        let prev = margin_grid(nx - 1, m);
        let col = margin_column(nx - 1, MAP_SIZE.1 as int, m);
        let cur = margin_grid(nx, m);
        assert(cur == prev + col);
        assert forall|i: int| 0 <= i < cur.len() implies {
            let t = #[trigger] cur[i];
            &&& 0 <= t.x < nx
            &&& 0 <= t.y < MAP_SIZE.1
            &&& t.kind == TileKind::Wall
            &&& is_margin_cell(t.x as int, t.y as int, m)
        } by {
            if i < prev.len() {
                assert(cur[i] == prev[i]);
            } else {
                assert(cur[i] == col[i - prev.len()]);
            }
        }
        assert forall|x: int, y: int|
            0 <= x < nx && 0 <= y < MAP_SIZE.1 && is_margin_cell(x, y, m) implies cur.contains(
                Tile { x: x as isize, y: y as isize, kind: TileKind::Wall },
            ) by {
            let w = Tile { x: x as isize, y: y as isize, kind: TileKind::Wall };
            if x < nx - 1 {
                let k = choose|k: int| 0 <= k < prev.len() && prev[k] == w;
                assert(cur[k] == w);
            } else {
                let k = choose|k: int| 0 <= k < col.len() && col[k] == w;
                assert(cur[prev.len() + k] == w);
            }
        }
    }
}

/// The wall frame encloses the playable area on all four sides: a cell of
/// the full grid holds a wall exactly when it lies in the `m.0` columns at
/// either side or the `m.1` rows at the bottom or top, and nothing but such
/// walls is in the frame.
pub proof fn lemma_frame_encloses_play_area(m: (isize, isize), x: int, y: int)
    requires
        0 <= x < MAP_SIZE.0,
        0 <= y < MAP_SIZE.1,
    ensures
        spec_margin_tiles(m).contains(Tile { x: x as isize, y: y as isize, kind: TileKind::Wall }) <==> (x
            < m.0 || x >= MAP_SIZE.0 - m.0 || y < m.1 || y >= MAP_SIZE.1 - m.1),
        forall|i: int| 0 <= i < spec_margin_tiles(m).len() ==> {
            let t = #[trigger] spec_margin_tiles(m)[i];
            &&& t.kind == TileKind::Wall
            &&& 0 <= t.x < MAP_SIZE.0
            &&& 0 <= t.y < MAP_SIZE.1
        },
{
    lemma_margin_grid(MAP_SIZE.0 as int, m);
    let w = Tile { x: x as isize, y: y as isize, kind: TileKind::Wall };
    let g = margin_grid(MAP_SIZE.0 as int, m);
    assert(spec_margin_tiles(m) == g);
    if g.contains(w) {
        let k = choose|k: int| 0 <= k < g.len() && g[k] == w;
        assert(is_margin_cell(g[k].x as int, g[k].y as int, m));
        assert(g[k].x as int == x && g[k].y as int == y);
    }
    if is_margin_cell(x, y, m) {
        assert(g.contains(w));
    }
}

/// Builds the wall tiles that frame a playable area inset by `margin`.
pub fn build_margin_tiles(margin: (isize, isize)) -> (r: Vec<Tile>)
    requires
        in_isize(MAP_SIZE.0 - margin.0),
        in_isize(MAP_SIZE.1 - margin.1),
    ensures
        r@ == spec_margin_tiles(margin),
{
    let mut tiles: Vec<Tile> = Vec::new();
    let mut x: isize = 0;
    while x < MAP_SIZE.0
        invariant
            0 <= x <= MAP_SIZE.0,
            in_isize(MAP_SIZE.0 - margin.0),
            in_isize(MAP_SIZE.1 - margin.1),
            tiles@ == margin_grid(x as int, margin),
        decreases MAP_SIZE.0 - x,
    {
        let ghost before = tiles@;
        let mut y: isize = 0;
        while y < MAP_SIZE.1
            invariant
                0 <= x < MAP_SIZE.0,
                0 <= y <= MAP_SIZE.1,
                in_isize(MAP_SIZE.0 - margin.0),
                in_isize(MAP_SIZE.1 - margin.1),
                tiles@ == before + margin_column(x as int, y as int, margin),
            decreases MAP_SIZE.1 - y,
        {
            let is_margin = x < margin.0 || x >= MAP_SIZE.0 - margin.0 || y < margin.1 || y
                >= MAP_SIZE.1 - margin.1;
            if is_margin {
                tiles.push(Tile { x, y, kind: TileKind::Wall });
            }
            proof {
                assert(tiles@ =~= before + margin_column(x as int, y + 1, margin));
            }
            y += 1;
        }
        x += 1;
    }
    tiles
}

// ---------------------------------------------------------------------------
// Chunks as mathematical values.
// ---------------------------------------------------------------------------

pub open spec fn chunk_views(cs: Seq<PlacedChunk>) -> Seq<ChunkView> {
    cs.map_values(|c: PlacedChunk| c@)
}

/// A chunk moved by `(dx, dy)`.
pub open spec fn shift_chunk_view(c: ChunkView, dx: int, dy: int) -> ChunkView {
    ChunkView { id: c.id, exits: shift_ports_seq(c.exits, dx, dy), tiles: shift_tiles_seq(c.tiles, dx, dy) }
}

pub open spec fn chunk_shift_fits(c: ChunkView, dx: int, dy: int) -> bool {
    tiles_shift_fit(c.tiles, dx, dy) && ports_shift_fit(c.exits, dx, dy)
}

pub open spec fn chunks_shift_fit(cs: Seq<ChunkView>, dx: int, dy: int) -> bool {
    forall|i: int| 0 <= i < cs.len() ==> chunk_shift_fits(#[trigger] cs[i], dx, dy)
}

pub open spec fn shift_chunks_seq(cs: Seq<ChunkView>, dx: int, dy: int) -> Seq<ChunkView> {
    cs.map_values(|c: ChunkView| shift_chunk_view(c, dx, dy))
}

/// Moves every chunk by `(dx, dy)`, or gives `None` when some coordinate
/// would overflow.
pub fn shift_chunks(chunks: &Vec<PlacedChunk>, dx: isize, dy: isize) -> (r: Option<Vec<PlacedChunk>>)
    ensures
        r is Some <==> chunks_shift_fit(chunk_views(chunks@), dx as int, dy as int),
        r is Some ==> chunk_views(r->0@) == shift_chunks_seq(chunk_views(chunks@), dx as int, dy as int),
{
    let ghost cv = chunk_views(chunks@);
    let mut out: Vec<PlacedChunk> = Vec::new();
    let mut i: usize = 0;
    while i < chunks.len()
        invariant
            i <= chunks.len(),
            cv == chunk_views(chunks@),
            chunk_views(out@) == shift_chunks_seq(cv.take(i as int), dx as int, dy as int),
            forall|k: int| 0 <= k < i ==> chunk_shift_fits(#[trigger] cv[k], dx as int, dy as int),
        decreases chunks.len() - i,
    {
        let c = &chunks[i];
        let exits = shift_ports(&c.exits_world, dx, dy);
        if exits.is_none() {
            proof {
                assert(cv[i as int] == c@);
            }
            return None;
        }
        let tiles = shift_tiles(&c.tiles_world, dx, dy);
        if tiles.is_none() {
            proof {
                assert(cv[i as int] == c@);
            }
            return None;
        }
        let moved = PlacedChunk { id: c.id.clone(), exits_world: exits.unwrap(), tiles_world: tiles.unwrap() };
        let ghost out_before = out@;
        proof {
            assert(moved@ == shift_chunk_view(c@, dx as int, dy as int));
        }
        out.push(moved);
        proof {
            assert(cv[i as int] == c@);
            assert(out@ == out_before.push(moved));
            assert(chunk_views(out@) =~= chunk_views(out_before).push(moved@));
            assert(cv.take(i + 1) =~= cv.take(i as int).push(c@));
            assert(chunk_views(out@) =~= shift_chunks_seq(cv.take(i + 1), dx as int, dy as int));
        }
        i += 1;
    }
    proof {
        assert(cv.take(chunks.len() as int) =~= cv);
    }
    Some(out)
}

// ---------------------------------------------------------------------------
// Queries over all tiles of a stage.
// ---------------------------------------------------------------------------

/// All chunk tiles, chunk after chunk.
pub open spec fn flat_tiles(cs: Seq<ChunkView>) -> Seq<Tile>
    decreases cs.len(),
{
    if cs.len() == 0 {
        Seq::empty()
    } else {
        flat_tiles(cs.drop_last()) + cs.last().tiles
    }
}

/// Positions of the tiles of kind `k`, in order.
pub open spec fn positions_of_kind(ts: Seq<Tile>, k: TileKind) -> Seq<(isize, isize)>
    decreases ts.len(),
{
    if ts.len() == 0 {
        Seq::empty()
    } else {
        let rest = positions_of_kind(ts.drop_last(), k);
        if ts.last().kind == k {
            rest.push((ts.last().x, ts.last().y))
        } else {
            rest
        }
    }
}

/// Kind of the first tile found at `(x, y)`.
pub open spec fn first_kind_at(ts: Seq<Tile>, x: int, y: int) -> Option<TileKind>
    decreases ts.len(),
{
    if ts.len() == 0 {
        None
    } else {
        match first_kind_at(ts.drop_last(), x, y) {
            Some(k) => Some(k),
            None => if ts.last().x == x && ts.last().y == y {
                Some(ts.last().kind)
            } else {
                None
            },
        }
    }
}

/// Kind of the last tile found at `(x, y)`.
pub open spec fn last_kind_at(ts: Seq<Tile>, x: int, y: int) -> Option<TileKind>
    decreases ts.len(),
{
    if ts.len() == 0 {
        None
    } else if ts.last().x == x && ts.last().y == y {
        Some(ts.last().kind)
    } else {
        last_kind_at(ts.drop_last(), x, y)
    }
}

pub proof fn lemma_positions_of_kind_append(a: Seq<Tile>, b: Seq<Tile>, k: TileKind)
    ensures
        positions_of_kind(a + b, k) == positions_of_kind(a, k) + positions_of_kind(b, k),
    decreases b.len(),
{
    if b.len() == 0 {
        assert(a + b =~= a);
        assert(positions_of_kind(a, k) + positions_of_kind(b, k) =~= positions_of_kind(a, k));
    } else {
        lemma_positions_of_kind_append(a, b.drop_last(), k);
        assert((a + b).drop_last() =~= a + b.drop_last());
        assert((a + b).last() == b.last());
        if b.last().kind == k {
            assert(positions_of_kind(a + b, k) =~= positions_of_kind(a, k) + positions_of_kind(b, k));
        } else {
            assert(positions_of_kind(a + b, k) =~= positions_of_kind(a, k) + positions_of_kind(b, k));
        }
    }
}

pub proof fn lemma_first_kind_at_append(a: Seq<Tile>, b: Seq<Tile>, x: int, y: int)
    ensures
        first_kind_at(a + b, x, y) == (match first_kind_at(a, x, y) {
            Some(k) => Some(k),
            None => first_kind_at(b, x, y),
        }),
    decreases b.len(),
{
    if b.len() == 0 {
        assert(a + b =~= a);
    } else {
        lemma_first_kind_at_append(a, b.drop_last(), x, y);
        assert((a + b).drop_last() =~= a + b.drop_last());
        assert((a + b).last() == b.last());
    }
}

pub proof fn lemma_last_kind_at_append(a: Seq<Tile>, b: Seq<Tile>, x: int, y: int)
    ensures
        last_kind_at(a + b, x, y) == (match last_kind_at(b, x, y) {
            Some(k) => Some(k),
            None => last_kind_at(a, x, y),
        }),
    decreases b.len(),
{
    if b.len() == 0 {
        assert(a + b =~= a);
    } else {
        lemma_last_kind_at_append(a, b.drop_last(), x, y);
        assert((a + b).drop_last() =~= a + b.drop_last());
        assert((a + b).last() == b.last());
    }
}

/// Chunks placed for a stage, before the goal column is finished.
pub struct PlacedChunkLayout {
    pub placed_chunks: Vec<PlacedChunk>,
    pub map_size: (isize, isize),
    pub boundary_margin: (isize, isize),
    pub margin_tiles: Vec<Tile>,
}

impl PlacedChunkLayout {
    /// Moves the chunks into the framed grid and builds the frame. Gives
    /// `None` when moving would overflow a coordinate.
    pub fn new(placed_chunks: Vec<PlacedChunk>, boundary_margin: (isize, isize)) -> (r: Option<PlacedChunkLayout>)
        requires
            in_isize(MAP_SIZE.0 - boundary_margin.0),
            in_isize(MAP_SIZE.1 - boundary_margin.1),
        ensures
            r is Some <==> chunks_shift_fit(chunk_views(placed_chunks@), boundary_margin.0 as int, boundary_margin.1 as int),
            r is Some ==> {
                let l = r->0;
                &&& chunk_views(l.placed_chunks@) == shift_chunks_seq(
                    chunk_views(placed_chunks@),
                    boundary_margin.0 as int,
                    boundary_margin.1 as int,
                )
                &&& l.map_size == MAP_SIZE
                &&& l.boundary_margin == boundary_margin
                &&& l.margin_tiles@ == spec_margin_tiles(boundary_margin)
            },
    {
        let moved = shift_chunks(&placed_chunks, boundary_margin.0, boundary_margin.1);
        if moved.is_none() {
            return None;
        }
        Some(PlacedChunkLayout {
            placed_chunks: moved.unwrap(),
            map_size: MAP_SIZE,
            boundary_margin,
            margin_tiles: build_margin_tiles(boundary_margin),
        })
    }
}

/// A generated stage: placed chunks, the wall frame and the stone type.
pub struct StageMap {
    pub placed_chunks: Vec<PlacedChunk>,
    pub map_size: (isize, isize),
    pub stone_type: StoneType,
    pub boundary_margin: (isize, isize),
    pub margin_tiles: Vec<Tile>,
}

/// Glyph used for a tile kind when a stage is drawn as text.
pub open spec fn spec_kind_char(k: TileKind) -> char {
    match k {
        TileKind::Solid => '*',
        TileKind::PlayerSpawn => '@',
        TileKind::Stone => 'S',
        TileKind::Goal => 'G',
        TileKind::Wall => '#',
    }
}

/// Glyph used for a tile kind when a stage is drawn as text.
pub fn kind_char(k: TileKind) -> (c: char)
    ensures
        c == spec_kind_char(k),
{
    match k {
        TileKind::Solid => '*',
        TileKind::PlayerSpawn => '@',
        TileKind::Stone => 'S',
        TileKind::Goal => 'G',
        TileKind::Wall => '#',
    }
}

/// Glyph of the cell `(x, y)` of a text drawing: the last tile there wins,
/// an empty cell is `.`.
pub open spec fn spec_cell_char(cells: Seq<Tile>, x: int, y: int) -> char {
    match last_kind_at(cells, x, y) {
        Some(k) => spec_kind_char(k),
        None => '.',
    }
}

/// One drawn row: the glyphs of columns `0..nx` at height `y`.
pub open spec fn drawn_row(cells: Seq<Tile>, y: int, nx: int) -> Seq<char>
    decreases nx,
{
    if nx <= 0 {
        Seq::empty()
    } else {
        drawn_row(cells, y, nx - 1).push(spec_cell_char(cells, nx - 1, y))
    }
}

/// The drawn rows from height `top - 1` down to height `top - count`.
pub open spec fn drawn_rows(cells: Seq<Tile>, top: int, count: int, width: int) -> Seq<char>
    decreases count,
{
    if count <= 0 {
        Seq::empty()
    } else {
        drawn_rows(cells, top, count - 1, width) + drawn_row(cells, top - count, width)
    }
}

impl StageMap {
    /// A stage made from a layout and the stone type of its stage file.
    pub fn from_layout(layout: PlacedChunkLayout, stone_type: StoneType) -> (m: StageMap)
        ensures
            m.placed_chunks@ == layout.placed_chunks@,
            m.map_size == layout.map_size,
            m.stone_type == stone_type,
            m.boundary_margin == layout.boundary_margin,
            m.margin_tiles@ == layout.margin_tiles@,
    {
        StageMap {
            placed_chunks: layout.placed_chunks,
            map_size: layout.map_size,
            stone_type,
            boundary_margin: layout.boundary_margin,
            margin_tiles: layout.margin_tiles,
        }
    }

    /// Moves the chunks into the framed grid and builds the frame. Gives
    /// `None` when moving would overflow a coordinate.
    pub fn new(placed_chunks: Vec<PlacedChunk>, stone_type: StoneType, boundary_margin: (isize, isize)) -> (r: Option<StageMap>)
        requires
            in_isize(MAP_SIZE.0 - boundary_margin.0),
            in_isize(MAP_SIZE.1 - boundary_margin.1),
        ensures
            r is Some <==> chunks_shift_fit(chunk_views(placed_chunks@), boundary_margin.0 as int, boundary_margin.1 as int),
            r is Some ==> {
                let m = r->0;
                &&& chunk_views(m.placed_chunks@) == shift_chunks_seq(
                    chunk_views(placed_chunks@),
                    boundary_margin.0 as int,
                    boundary_margin.1 as int,
                )
                &&& m.map_size == MAP_SIZE
                &&& m.stone_type == stone_type
                &&& m.boundary_margin == boundary_margin
                &&& m.margin_tiles@ == spec_margin_tiles(boundary_margin)
            },
    {
        let layout = PlacedChunkLayout::new(placed_chunks, boundary_margin);
        if layout.is_none() {
            return None;
        }
        Some(StageMap::from_layout(layout.unwrap(), stone_type))
    }

    /// All tiles of the chunks, chunk after chunk.
    pub open spec fn chunk_tiles(&self) -> Seq<Tile> {
        flat_tiles(chunk_views(self.placed_chunks@))
    }

    /// Every tile of the stage: the frame first, then the chunks.
    pub open spec fn all_tiles(&self) -> Seq<Tile> {
        self.margin_tiles@ + self.chunk_tiles()
    }

    /// Copies the chunk tiles into one vector.
    fn collect_chunk_tiles(&self) -> (r: Vec<Tile>)
        ensures
            r@ == self.chunk_tiles(),
    {
        let ghost cv = chunk_views(self.placed_chunks@);
        let mut out: Vec<Tile> = Vec::new();
        let mut i: usize = 0;
        while i < self.placed_chunks.len()
            invariant
                i <= self.placed_chunks.len(),
                cv == chunk_views(self.placed_chunks@),
                out@ == flat_tiles(cv.take(i as int)),
            decreases self.placed_chunks.len() - i,
        {
            let chunk = &self.placed_chunks[i];
            let ghost before = out@;
            let mut j: usize = 0;
            while j < chunk.tiles_world.len()
                invariant
                    j <= chunk.tiles_world.len(),
                    out@ == before + chunk.tiles_world@.take(j as int),
                decreases chunk.tiles_world.len() - j,
            {
                out.push(chunk.tiles_world[j]);
                proof {
                    assert(chunk.tiles_world@.take(j + 1) =~= chunk.tiles_world@.take(j as int).push(chunk.tiles_world@[j as int]));
                }
                j += 1;
            }
            proof {
                assert(chunk.tiles_world@.take(j as int) =~= chunk.tiles_world@);
                assert(cv.take(i + 1).drop_last() =~= cv.take(i as int));
                assert(cv.take(i + 1).last() == chunk@);
            }
            i += 1;
        }
        proof {
            assert(cv.take(self.placed_chunks.len() as int) =~= cv);
        }
        out
    }

    /// Positions of every chunk tile of the given kind, in placement order.
    pub fn tile_positions(&self, kind: TileKind) -> (r: Vec<(isize, isize)>)
        ensures
            r@ == positions_of_kind(self.chunk_tiles(), kind),
    {
        let tiles = self.collect_chunk_tiles();
        let mut out: Vec<(isize, isize)> = Vec::new();
        let mut i: usize = 0;
        while i < tiles.len()
            invariant
                i <= tiles.len(),
                out@ == positions_of_kind(tiles@.take(i as int), kind),
            decreases tiles.len() - i,
        {
            let t = tiles[i];
            proof {
                assert(tiles@.take(i + 1).drop_last() =~= tiles@.take(i as int));
                assert(tiles@.take(i + 1).last() == t);
            }
            if t.kind == kind {
                out.push((t.x, t.y));
            }
            i += 1;
        }
        proof {
            assert(tiles@.take(tiles.len() as int) =~= tiles@);
        }
        out
    }

    /// Position of the first chunk tile of the given kind.
    pub fn tile_position(&self, kind: TileKind) -> (r: Option<(isize, isize)>)
        ensures
            r == (if positions_of_kind(self.chunk_tiles(), kind).len() > 0 {
                Some(positions_of_kind(self.chunk_tiles(), kind)[0])
            } else {
                None
            }),
    {
        let positions = self.tile_positions(kind);
        if positions.len() > 0 {
            Some(positions[0])
        } else {
            None
        }
    }

    /// Kind of the tile at a position given with `y` counted from the top:
    /// chunk tiles come first, then the frame.
    pub open spec fn spec_tile_by_position(&self, position: (isize, isize)) -> Option<TileKind> {
        match first_kind_at(self.chunk_tiles(), position.0 as int, self.map_size.1 - position.1 - 1) {
            Some(k) => Some(k),
            None => first_kind_at(self.margin_tiles@, position.0 as int, self.map_size.1 - position.1 - 1),
        }
    }

    /// Kind of the tile at a position given with `y` counted from the top:
    /// chunk tiles come first, then the frame.
    pub fn tile_by_position(&self, position: (isize, isize)) -> (r: Option<TileKind>)
        requires
            in_isize(self.map_size.1 - position.1),
            in_isize(self.map_size.1 - position.1 - 1),
        ensures
            r == self.spec_tile_by_position(position),
    {
        let x = position.0;
        let y = self.map_size.1 - position.1 - 1;
        let tiles = self.collect_chunk_tiles();
        let found = first_kind_in(&tiles, x, y);
        if found.is_some() {
            return found;
        }
        first_kind_in(&self.margin_tiles, x, y)
    }

    /// Every tile of the stage as `(position, kind)`: the frame first, then
    /// the chunks.
    pub fn map_iter(&self) -> (r: Vec<((isize, isize), TileKind)>)
        ensures
            r@ == self.all_tiles().map_values(|t: Tile| ((t.x, t.y), t.kind)),
    {
        let chunk_tiles = self.collect_chunk_tiles();
        let mut out: Vec<((isize, isize), TileKind)> = Vec::new();
        let ghost all = self.all_tiles();
        let n1 = self.margin_tiles.len();
        let mut i: usize = 0;
        while i < n1
            invariant
                n1 == self.margin_tiles.len(),
                all == self.margin_tiles@ + chunk_tiles@,
                i <= n1,
                out@ == all.take(i as int).map_values(|t: Tile| ((t.x, t.y), t.kind)),
            decreases n1 - i,
        {
            let t = self.margin_tiles[i];
            out.push(((t.x, t.y), t.kind));
            proof {
                assert(all[i as int] == t);
                assert(all.take(i + 1) =~= all.take(i as int).push(t));
                assert(out@ =~= all.take(i + 1).map_values(|t: Tile| ((t.x, t.y), t.kind)));
            }
            i += 1;
        }
        let mut j: usize = 0;
        while j < chunk_tiles.len()
            invariant
                n1 == self.margin_tiles.len(),
                all == self.margin_tiles@ + chunk_tiles@,
                j <= chunk_tiles.len(),
                out@ == all.take(n1 + j).map_values(|t: Tile| ((t.x, t.y), t.kind)),
            decreases chunk_tiles.len() - j,
        {
            let t = chunk_tiles[j];
            out.push(((t.x, t.y), t.kind));
            proof {
                assert(all[n1 + j] == t);
                assert(all.take(n1 + j + 1) =~= all.take(n1 + j).push(t));
                assert(out@ =~= all.take(n1 + j + 1).map_values(|t: Tile| ((t.x, t.y), t.kind)));
            }
            j += 1;
        }
        proof {
            assert(all.take(n1 + j) =~= all);
        }
        out
    }

    /// The stage drawn as text, top row first, one glyph per cell, rows
    /// written one after the other.
    pub fn ascii_map(&self) -> (r: Vec<char>)
        requires
            self.map_size.0 >= 0,
            self.map_size.1 >= 0,
        ensures
            r@ == drawn_rows(self.all_tiles(), self.map_size.1 as int, self.map_size.1 as int, self.map_size.0 as int),
    {
        let chunk_tiles = self.collect_chunk_tiles();
        let mut cells: Vec<Tile> = Vec::new();
        let mut i: usize = 0;
        while i < self.margin_tiles.len()
            invariant
                i <= self.margin_tiles.len(),
                cells@ == self.margin_tiles@.take(i as int),
            decreases self.margin_tiles.len() - i,
        {
            cells.push(self.margin_tiles[i]);
            proof {
                assert(self.margin_tiles@.take(i + 1) =~= self.margin_tiles@.take(i as int).push(self.margin_tiles@[i as int]));
            }
            i += 1;
        }
        let ghost margin_part = cells@;
        let mut j: usize = 0;
        while j < chunk_tiles.len()
            invariant
                j <= chunk_tiles.len(),
                cells@ == margin_part + chunk_tiles@.take(j as int),
            decreases chunk_tiles.len() - j,
        {
            cells.push(chunk_tiles[j]);
            proof {
                assert(chunk_tiles@.take(j + 1) =~= chunk_tiles@.take(j as int).push(chunk_tiles@[j as int]));
            }
            j += 1;
        }
        proof {
            assert(self.margin_tiles@.take(self.margin_tiles.len() as int) =~= self.margin_tiles@);
            assert(chunk_tiles@.take(j as int) =~= chunk_tiles@);
        }
        let (width, height) = self.map_size;
        let mut out: Vec<char> = Vec::new();
        let mut count: isize = 0;
        while count < height
            invariant
                cells@ == self.all_tiles(),
                width >= 0,
                0 <= count <= height,
                out@ == drawn_rows(cells@, height as int, count as int, width as int),
            decreases height - count,
        {
            let y = height - 1 - count;
            let ghost before = out@;
            let mut x: isize = 0;
            while x < width
                invariant
                    0 <= x <= width,
                    y == height - (count + 1),
                    out@ == before + drawn_row(cells@, y as int, x as int),
                decreases width - x,
            {
                let found = last_kind_in(&cells, x, y);
                let ch = match found {
                    Some(k) => kind_char(k),
                    None => '.',
                };
                out.push(ch);
                proof {
                    assert(out@ =~= before + drawn_row(cells@, y as int, x + 1));
                }
                x += 1;
            }
            count += 1;
        }
        out
    }
}

/// Kind of the first tile of `tiles` at `(x, y)`.
pub fn first_kind_in(tiles: &Vec<Tile>, x: isize, y: isize) -> (r: Option<TileKind>)
    ensures
        r == first_kind_at(tiles@, x as int, y as int),
{
    let mut i: usize = 0;
    while i < tiles.len()
        invariant
            i <= tiles.len(),
            first_kind_at(tiles@.take(i as int), x as int, y as int) is None,
        decreases tiles.len() - i,
    {
        let t = tiles[i];
        proof {
            assert(tiles@.take(i + 1).drop_last() =~= tiles@.take(i as int));
            assert(tiles@.take(i + 1).last() == t);
        }
        if t.x == x && t.y == y {
            proof {
                lemma_first_kind_at_append(tiles@.take(i + 1), tiles@.subrange(i + 1, tiles.len() as int), x as int, y as int);
                assert(tiles@.take(i + 1) + tiles@.subrange(i + 1, tiles.len() as int) =~= tiles@);
            }
            return Some(t.kind);
        }
        i += 1;
    }
    proof {
        assert(tiles@.take(tiles.len() as int) =~= tiles@);
    }
    None
}

/// Kind of the last tile of `tiles` at `(x, y)`.
pub fn last_kind_in(tiles: &Vec<Tile>, x: isize, y: isize) -> (r: Option<TileKind>)
    ensures
        r == last_kind_at(tiles@, x as int, y as int),
{
    let mut found: Option<TileKind> = None;
    let mut i: usize = 0;
    while i < tiles.len()
        invariant
            i <= tiles.len(),
            found == last_kind_at(tiles@.take(i as int), x as int, y as int),
        decreases tiles.len() - i,
    {
        let t = tiles[i];
        proof {
            assert(tiles@.take(i + 1).drop_last() =~= tiles@.take(i as int));
            assert(tiles@.take(i + 1).last() == t);
        }
        if t.x == x && t.y == y {
            found = Some(t.kind);
        }
        i += 1;
    }
    proof {
        assert(tiles@.take(tiles.len() as int) =~= tiles@);
    }
    found
}

} // verus!
