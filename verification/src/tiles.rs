use vstd::prelude::*;

use crate::chunk_grammar::{Tile, TileKind};
use crate::rng::{random_below, random_ratio};
use crate::stage_map::{positions_of_kind, StageMap};
use crate::stone_type::StoneType;

verus! {

/// Tileset entry of the ladder drawn at the stage's entry and exit.
pub const LADDER_TILE_ID: u32 = 178;

/// Tileset entry of the grass drawn on the floor of the frame.
pub const GRASS_TILE_ID: u32 = 226;

/// Whether `id` is one of the tileset entries used for the frame's
/// background: four runs of four, seventeen entries apart, from 251.
pub open spec fn is_background_id(id: u32) -> bool {
    ||| 251 <= id <= 254
    ||| 268 <= id <= 271
    ||| 285 <= id <= 288
    ||| 302 <= id <= 305
}

/// The background entry at position `index` of the list of sixteen.
pub fn background_id_at(index: usize) -> (r: u32)
    requires
        index < 16,
    ensures
        is_background_id(r),
{
    match index {
        0 => 251,
        1 => 252,
        2 => 253,
        3 => 254,
        4 => 268,
        5 => 269,
        6 => 270,
        7 => 271,
        8 => 285,
        9 => 286,
        10 => 287,
        11 => 288,
        12 => 302,
        13 => 303,
        14 => 304,
        _ => 305,
    }
}

/// One of the background entries, picked at random.
pub fn background_tile_id(rng: &mut rand::rngs::ThreadRng) -> (r: u32)
    ensures
        is_background_id(r),
{
    let index = random_below(rng, 16);
    background_id_at(index)
}

/// One of the two entries a solid tile is drawn with, picked at random.
pub fn solid_tile_id(rng: &mut rand::rngs::ThreadRng) -> (r: u32)
    ensures
        r == 235 || r == 236,
{
    let offset = random_below(rng, 2);
    if offset == 0 {
        235
    } else {
        236
    }
}

/// The entry a chunk tile is drawn with: solid tiles get one of their two
/// entries, other kinds are not drawn from the tileset.
pub fn tile_id_for_kind(rng: &mut rand::rngs::ThreadRng, kind: TileKind) -> (r: Option<u32>)
    ensures
        kind == TileKind::Solid ==> (r == Some(235u32) || r == Some(236u32)),
        kind != TileKind::Solid ==> r is None,
{
    match kind {
        TileKind::Solid => Some(solid_tile_id(rng)),
        _ => None,
    }
}

/// How a frame tile is turned.
#[derive(Debug, Clone, Copy, PartialEq, Eq, Structural)]
pub enum TileRotation {
    Upright,
    QuarterTurn,
    ThreeQuarterTurn,
}

/// What a frame cell shows: a fixed entry, turned, or a random background
/// entry.
#[derive(Debug, Clone, Copy, PartialEq, Eq, Structural)]
pub enum FrameTile {
    Fixed(u32, TileRotation),
    Background,
}

/// A cell of the frame drawn around the playable area.
#[derive(Debug, Clone, Copy, PartialEq, Eq, Structural)]
pub struct FrameCell {
    /// Whether the cell blocks: it lies in the wall columns or rows.
    pub boundary: bool,
    pub tile: FrameTile,
    /// Whether the entry ladder stands in the cell.
    pub entry_ladder: bool,
    /// Whether the exit ladder stands in the cell.
    pub exit_ladder: bool,
    /// Whether the cell is on the floor's edge, where grass may grow.
    pub edge_bottom: bool,
}

/// The frame cell drawn at `(x, y)` of a map of size `n` with margin `m`,
/// `y` counted from the top; none outside the frame's outer ring.
pub open spec fn spec_frame_cell(x: int, y: int, n: (isize, isize), m: (isize, isize)) -> Option<FrameCell> {
    if x < m.0 - 1 || x > n.0 - m.0 || y < m.1 - 1 || y > n.1 - m.1 {
        None
    } else {
        let wall_x = x < m.0 || x >= n.0 - m.0;
        let wall_y = y < m.1 || y >= n.1 - m.1;
        let left = x == m.0 - 1;
        let right = x == n.0 - m.0;
        let top = y == m.1 - 1;
        let bottom = y == n.1 - m.1;
        let boundary = wall_x || wall_y;
        let tile = if boundary && (left || right || top || bottom) {
            if left && top {
                FrameTile::Fixed(112, TileRotation::Upright)
            } else if m.0 == x && top {
                FrameTile::Fixed(270, TileRotation::Upright)
            } else if m.0 + 1 == x && top {
                FrameTile::Fixed(114, TileRotation::QuarterTurn)
            } else if right && top {
                FrameTile::Fixed(130, TileRotation::Upright)
            } else if left && bottom {
                FrameTile::Fixed(115, TileRotation::Upright)
            } else if n.0 - m.0 - 2 == x && bottom {
                FrameTile::Fixed(114, TileRotation::ThreeQuarterTurn)
            } else if n.0 - m.0 - 1 == x && bottom {
                FrameTile::Fixed(270, TileRotation::Upright)
            } else if right && bottom {
                FrameTile::Fixed(132, TileRotation::Upright)
            } else if top {
                FrameTile::Fixed(95, TileRotation::Upright)
            } else if bottom {
                FrameTile::Fixed(133, TileRotation::Upright)
            } else if left {
                FrameTile::Fixed(112, TileRotation::Upright)
            } else {
                FrameTile::Fixed(132, TileRotation::Upright)
            }
        } else {
            FrameTile::Background
        };
        Some(
            FrameCell {
                boundary,
                tile,
                entry_ladder: x == m.0 && y <= m.1 + 2,
                exit_ladder: x == n.0 - m.0 - 1 && y >= n.1 - m.1 - 1,
                edge_bottom: bottom,
            },
        )
    }
}

/// The frame cell at `(x, y)`, `y` counted from the top; none outside the
/// frame's outer ring.
pub fn frame_cell(x: isize, y: isize, map_size: (isize, isize), margin: (isize, isize)) -> (r: Option<FrameCell>)
    ensures
        r == spec_frame_cell(x as int, y as int, map_size, margin),
{
    // Sums of two coordinates and a small constant always fit in 128 bits.
    let x = x as i128;
    let y = y as i128;
    let nx = map_size.0 as i128;
    let ny = map_size.1 as i128;
    let mx = margin.0 as i128;
    let my = margin.1 as i128;
    if x < mx - 1 || x > nx - mx || y < my - 1 || y > ny - my {
        return None;
    }
    let wall_x = x < mx || x >= nx - mx;
    let wall_y = y < my || y >= ny - my;
    let left = x == mx - 1;
    let right = x == nx - mx;
    let top = y == my - 1;
    let bottom = y == ny - my;
    let boundary = wall_x || wall_y;
    let tile = if boundary && (left || right || top || bottom) {
        if left && top {
            FrameTile::Fixed(112, TileRotation::Upright)
        } else if mx == x && top {
            FrameTile::Fixed(270, TileRotation::Upright)
        } else if mx + 1 == x && top {
            FrameTile::Fixed(114, TileRotation::QuarterTurn)
        } else if right && top {
            FrameTile::Fixed(130, TileRotation::Upright)
        } else if left && bottom {
            FrameTile::Fixed(115, TileRotation::Upright)
        } else if nx - mx - 2 == x && bottom {
            FrameTile::Fixed(114, TileRotation::ThreeQuarterTurn)
        } else if nx - mx - 1 == x && bottom {
            FrameTile::Fixed(270, TileRotation::Upright)
        } else if right && bottom {
            FrameTile::Fixed(132, TileRotation::Upright)
        } else if top {
            FrameTile::Fixed(95, TileRotation::Upright)
        } else if bottom {
            FrameTile::Fixed(133, TileRotation::Upright)
        } else if left {
            FrameTile::Fixed(112, TileRotation::Upright)
        } else {
            FrameTile::Fixed(132, TileRotation::Upright)
        }
    } else {
        FrameTile::Background
    };
    Some(
        FrameCell {
            boundary,
            tile,
            entry_ladder: x == mx && y <= my + 2,
            exit_ladder: x == nx - mx - 1 && y >= ny - my - 1,
            edge_bottom: bottom,
        },
    )
}

/// What is drawn for one frame cell.
#[derive(Debug, Clone, Copy, PartialEq, Eq, Structural)]
pub struct FrameCellPlan {
    pub x: isize,
    pub y: isize,
    pub cell: FrameCell,
    /// The entry the cell is drawn with.
    pub tile_id: u32,
    /// Whether grass is drawn in the cell above.
    pub grass: bool,
}

/// Whether a plan follows the rules for its cell: a fixed entry is used as
/// it is, a background entry is one of the background list, and grass grows
/// only on the floor's edge below an empty cell.
pub open spec fn frame_plan_ok(p: FrameCellPlan, map: StageMap) -> bool {
    &&& spec_frame_cell(p.x as int, p.y as int, map.map_size, map.boundary_margin) == Some(p.cell)
    &&& match p.cell.tile {
        FrameTile::Fixed(id, _) => p.tile_id == id,
        FrameTile::Background => is_background_id(p.tile_id),
    }
    &&& p.grass ==> p.cell.edge_bottom && map.spec_tile_by_position((p.x, (p.y - 1) as isize)) is None
}

/// Whether `(a, b)` comes before `(c, d)`, column by column.
pub open spec fn cell_before(a: isize, b: isize, c: isize, d: isize) -> bool {
    a < c || (a == c && b < d)
}

/// What the frame around the stage is drawn with, cell by cell, column by
/// column; background entries and grass are picked at random.
pub fn plan_frame(map: &StageMap, rng: &mut rand::rngs::ThreadRng) -> (r: Vec<FrameCellPlan>)
    ensures
        forall|i: int| 0 <= i < r@.len() ==> frame_plan_ok(#[trigger] r@[i], *map),
        forall|i: int, j: int|
            0 <= i < j < r@.len() ==> cell_before(r@[i].x, r@[i].y, r@[j].x, r@[j].y),
        forall|x: int, y: int|
            0 <= x < map.map_size.0 && 0 <= y < map.map_size.1 && spec_frame_cell(
                x,
                y,
                map.map_size,
                map.boundary_margin,
            ) is Some ==> exists|i: int| 0 <= i < r@.len() && (#[trigger] r@[i]).x == x && r@[i].y == y,
{
    let (nx, ny) = map.map_size;
    let mut out: Vec<FrameCellPlan> = Vec::new();
    let mut x: isize = 0;
    while x < nx
        invariant
            (nx, ny) == map.map_size,
            0 <= x,
            x <= nx || x == 0,
            forall|i: int| 0 <= i < out@.len() ==> frame_plan_ok(#[trigger] out@[i], *map),
            forall|i: int| 0 <= i < out@.len() ==> (#[trigger] out@[i]).x < x,
            forall|i: int, j: int|
                0 <= i < j < out@.len() ==> cell_before(out@[i].x, out@[i].y, out@[j].x, out@[j].y),
            forall|cx: int, cy: int|
                0 <= cx < x && 0 <= cy < ny && spec_frame_cell(cx, cy, map.map_size, map.boundary_margin)
                    is Some ==> exists|i: int| 0 <= i < out@.len() && (#[trigger] out@[i]).x == cx && out@[i].y == cy,
        decreases nx - x,
    {
        let ghost column_start = out@.len();
        let mut y: isize = 0;
        while y < ny
            invariant
                (nx, ny) == map.map_size,
                0 <= x < nx,
                0 <= y,
                y <= ny || y == 0,
                column_start <= out@.len(),
                forall|i: int| 0 <= i < out@.len() ==> frame_plan_ok(#[trigger] out@[i], *map),
                forall|i: int| 0 <= i < column_start ==> (#[trigger] out@[i]).x < x,
                forall|i: int| column_start <= i < out@.len() ==> (#[trigger] out@[i]).x == x && out@[i].y < y,
                forall|i: int, j: int|
                    0 <= i < j < out@.len() ==> cell_before(out@[i].x, out@[i].y, out@[j].x, out@[j].y),
                forall|cx: int, cy: int|
                    0 <= cx < x && 0 <= cy < ny && spec_frame_cell(cx, cy, map.map_size, map.boundary_margin)
                        is Some ==> exists|i: int| 0 <= i < out@.len() && (#[trigger] out@[i]).x == cx && out@[i].y == cy,
                forall|cy: int|
                    0 <= cy < y && spec_frame_cell(x as int, cy, map.map_size, map.boundary_margin) is Some
                        ==> exists|i: int| 0 <= i < out@.len() && (#[trigger] out@[i]).x == x && out@[i].y == cy,
            decreases ny - y,
        {
            let found = frame_cell(x, y, map.map_size, map.boundary_margin);
            if let Some(cell) = found {
                let tile_id = match cell.tile {
                    FrameTile::Fixed(id, _) => id,
                    FrameTile::Background => background_tile_id(rng),
                };
                let mut grass = false;
                if cell.edge_bottom {
                    let below = map.tile_by_position((x, y - 1));
                    if below.is_none() {
                        grass = random_ratio(rng, 1, 5);
                    }
                }
                let plan = FrameCellPlan { x, y, cell, tile_id, grass };
                let ghost before = out@;
                out.push(plan);
                proof {
                    assert(out@[out@.len() - 1] == plan);
                    assert forall|i: int| 0 <= i < out@.len() implies frame_plan_ok(#[trigger] out@[i], *map) by {
                        if i < before.len() {
                            assert(out@[i] == before[i]);
                        }
                    }
                    assert forall|cx: int, cy: int|
                        0 <= cx < x && 0 <= cy < ny && spec_frame_cell(cx, cy, map.map_size, map.boundary_margin)
                            is Some implies exists|i: int| 0 <= i < out@.len() && (#[trigger] out@[i]).x == cx && out@[i].y == cy by {
                        let i = choose|i: int| 0 <= i < before.len() && (#[trigger] before[i]).x == cx && before[i].y == cy;
                        assert(out@[i] == before[i]);
                    }
                    assert forall|cy: int|
                        0 <= cy < y + 1 && spec_frame_cell(x as int, cy, map.map_size, map.boundary_margin) is Some
                            implies exists|i: int| 0 <= i < out@.len() && (#[trigger] out@[i]).x == x && out@[i].y == cy by {
                        if cy < y {
                            let i = choose|i: int| 0 <= i < before.len() && (#[trigger] before[i]).x == x && before[i].y == cy;
                            assert(out@[i] == before[i]);
                        } else {
                            assert(out@[out@.len() - 1].x == x && out@[out@.len() - 1].y == cy);
                        }
                    }
                }
            }
            y += 1;
        }
        x += 1;
    }
    out
}

/// What is drawn for one solid chunk tile.
#[derive(Debug, Clone, Copy, PartialEq, Eq, Structural)]
pub struct SolidTilePlan {
    pub x: isize,
    pub y: isize,
    /// The entry the tile is drawn with.
    pub tile_id: u32,
    /// The moss entry drawn over the tile, if any.
    pub moss: Option<u32>,
}

/// What the solid tiles of the stage are drawn with, in the order the map
/// lists its tiles; entries and moss are picked at random.
pub fn plan_solid_tiles(map: &StageMap, rng: &mut rand::rngs::ThreadRng) -> (r: Vec<SolidTilePlan>)
    ensures
        r@.len() == positions_of_kind(map.all_tiles(), TileKind::Solid).len(),
        forall|i: int|
            0 <= i < r@.len() ==> {
                &&& ((#[trigger] r@[i]).x, r@[i].y) == positions_of_kind(map.all_tiles(), TileKind::Solid)[i]
                &&& (r@[i].tile_id == 235 || r@[i].tile_id == 236)
                &&& (r@[i].moss is None || r@[i].moss == Some(224u32) || r@[i].moss == Some(225u32))
            },
{
    let tiles = map.map_iter();
    let ghost all = map.all_tiles();
    let mut out: Vec<SolidTilePlan> = Vec::new();
    let mut i: usize = 0;
    while i < tiles.len()
        invariant
            tiles@ == all.map_values(|t: Tile| ((t.x, t.y), t.kind)),
            i <= tiles@.len(),
            out@.len() == positions_of_kind(all.take(i as int), TileKind::Solid).len(),
            forall|k: int|
                0 <= k < out@.len() ==> {
                    &&& ((#[trigger] out@[k]).x, out@[k].y) == positions_of_kind(all.take(i as int), TileKind::Solid)[k]
                    &&& (out@[k].tile_id == 235 || out@[k].tile_id == 236)
                    &&& (out@[k].moss is None || out@[k].moss == Some(224u32) || out@[k].moss == Some(225u32))
                },
        decreases tiles@.len() - i,
    {
        let ((x, y), kind) = tiles[i];
        proof {
            assert(all.take(i + 1).drop_last() =~= all.take(i as int));
            assert(all.take(i + 1).last() == all[i as int]);
            assert(tiles@[i as int] == ((all[i as int].x, all[i as int].y), all[i as int].kind));
        }
        let chosen = tile_id_for_kind(rng, kind);
        if let Some(tile_id) = chosen {
            let mut moss: Option<u32> = None;
            if random_ratio(rng, 3, 10) {
                let pick = random_below(rng, 2);
                moss = Some(if pick == 0 {
                    224
                } else {
                    225
                });
            }
            let ghost before = out@;
            out.push(SolidTilePlan { x, y, tile_id, moss });
            proof {
                assert forall|k: int| 0 <= k < out@.len() implies {
                    &&& ((#[trigger] out@[k]).x, out@[k].y) == positions_of_kind(all.take(i + 1), TileKind::Solid)[k]
                    &&& (out@[k].tile_id == 235 || out@[k].tile_id == 236)
                    &&& (out@[k].moss is None || out@[k].moss == Some(224u32) || out@[k].moss == Some(225u32))
                } by {
                    if k < before.len() {
                        assert(out@[k] == before[k]);
                    }
                }
            }
        }
        i += 1;
    }
    proof {
        assert(all.take(tiles@.len() as int) =~= all);
    }
    out
}

/// How the tileset image is cut into tiles.
#[derive(Debug, Clone, Copy, PartialEq, Eq, Structural)]
pub struct TilesetGrid {
    pub tile_width: u32,
    pub tile_height: u32,
    pub spacing: u32,
    pub margin: u32,
    pub columns: u32,
    pub rows: u32,
}

/// Tiles in the tileset image.
pub const TILESET_TILE_COUNT: u32 = 561;

/// Columns of the tileset image.
pub const TILESET_COLUMNS: u32 = 17;

/// The tileset's grid: sixteen-pixel tiles, three pixels apart, seventeen to
/// a row, and as many rows as its tiles fill, a partly filled row counted.
pub fn tileset_grid() -> (r: TilesetGrid)
    ensures
        r.tile_width == 16,
        r.tile_height == 16,
        r.spacing == 3,
        r.margin == 0,
        r.columns == TILESET_COLUMNS,
        r.rows == TILESET_TILE_COUNT / TILESET_COLUMNS + if TILESET_TILE_COUNT % TILESET_COLUMNS > 0 {
            1u32
        } else {
            0u32
        },
{
    let columns = TILESET_COLUMNS;
    let rows = TILESET_TILE_COUNT / columns + if TILESET_TILE_COUNT % columns > 0 {
        1
    } else {
        0
    };
    TilesetGrid { tile_width: 16, tile_height: 16, spacing: 3, margin: 0, columns, rows }
}

/// Whether a tileset entry blocks: the two solid entries do.
pub fn tile_has_collider(id: u32) -> (r: bool)
    ensures
        r == (id == 235 || id == 236),
{
    id == 235 || id == 236
}

/// Columns of the stone sprite sheet.
pub const STONE_SHEET_COLUMNS: usize = 10;

/// The cell of the stone sprite sheet each kind of stone is drawn with, as
/// column and row.
pub open spec fn spec_stone_sprite_cell(t: StoneType) -> (usize, usize) {
    match t {
        StoneType::Type1 => (2, 4),
        StoneType::Type2 => (4, 4),
        StoneType::Type3 => (2, 0),
        StoneType::Type4 => (5, 0),
    }
}

/// The sprite a kind of stone is drawn with, counted row by row.
pub fn stone_sprite_index(t: StoneType) -> (r: usize)
    ensures
        r == spec_stone_sprite_cell(t).1 * STONE_SHEET_COLUMNS + spec_stone_sprite_cell(t).0,
{
    let (x, y): (usize, usize) = match t {
        StoneType::Type1 => (2, 4),
        StoneType::Type2 => (4, 4),
        StoneType::Type3 => (2, 0),
        StoneType::Type4 => (5, 0),
    };
    y * STONE_SHEET_COLUMNS + x
}

} // verus!
