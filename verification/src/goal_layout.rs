use vstd::prelude::*;

use crate::chunk_grammar::{ChunkView, PlacedChunk, Port, Tile, TileKind};
use crate::stage_map::{chunk_views, first_kind_at, first_kind_in, flat_tiles, StageMap};

verus! {

// ---------------------------------------------------------------------------
// Finishing the goal column: it is extended down to the floor of the
// playable area and guarded on its left by solid tiles.
// ---------------------------------------------------------------------------

/// Largest `x` of a goal tile.
pub open spec fn goal_max_x(ts: Seq<Tile>) -> Option<isize>
    decreases ts.len(),
{
    if ts.len() == 0 {
        None
    } else {
        let r = goal_max_x(ts.drop_last());
        let t = ts.last();
        if t.kind == TileKind::Goal {
            match r {
                Some(m) => if t.x > m {
                    Some(t.x)
                } else {
                    Some(m)
                },
                None => Some(t.x),
            }
        } else {
            r
        }
    }
}

/// Heights of the goal tiles in column `gx`, in order.
pub open spec fn column_goal_ys(ts: Seq<Tile>, gx: isize) -> Seq<isize>
    decreases ts.len(),
{
    if ts.len() == 0 {
        Seq::empty()
    } else {
        let r = column_goal_ys(ts.drop_last(), gx);
        let t = ts.last();
        if t.kind == TileKind::Goal && t.x == gx {
            r.push(t.y)
        } else {
            r
        }
    }
}

/// Smallest value of `s`, or `isize::MAX` for an empty sequence.
pub open spec fn seq_min(s: Seq<isize>) -> isize
    decreases s.len(),
{
    if s.len() == 0 {
        isize::MAX
    } else {
        let m = seq_min(s.drop_last());
        if s.last() < m {
            s.last()
        } else {
            m
        }
    }
}

/// Index of the last chunk that holds a goal tile in column `gx`.
pub open spec fn last_goal_chunk(cs: Seq<ChunkView>, gx: isize) -> Option<int>
    decreases cs.len(),
{
    if cs.len() == 0 {
        None
    } else if column_goal_ys(cs.last().tiles, gx).len() > 0 {
        Some(cs.len() - 1)
    } else {
        last_goal_chunk(cs.drop_last(), gx)
    }
}

/// Goal tiles in column `gx` for every height from `from` up to `to`.
pub open spec fn goal_run(gx: isize, from: int, to: int) -> Seq<Tile> {
    Seq::new((to - from) as nat, |k: int| Tile { x: gx, y: (from + k) as isize, kind: TileKind::Goal })
}

/// The chunk `ci` with extra tiles appended.
pub open spec fn append_tiles(cs: Seq<ChunkView>, ci: int, extra: Seq<Tile>) -> Seq<ChunkView> {
    cs.update(ci, ChunkView { id: cs[ci].id, exits: cs[ci].exits, tiles: cs[ci].tiles + extra })
}

/// Tiles at `(x, y)` turned solid.
pub open spec fn solidify(ts: Seq<Tile>, x: isize, y: isize) -> Seq<Tile> {
    ts.map_values(|t: Tile| if t.x == x && t.y == y { Tile { x: t.x, y: t.y, kind: TileKind::Solid } } else { t })
}

pub open spec fn solidify_chunks(cs: Seq<ChunkView>, x: isize, y: isize) -> Seq<ChunkView> {
    cs.map_values(|c: ChunkView| ChunkView { id: c.id, exits: c.exits, tiles: solidify(c.tiles, x, y) })
}

/// Makes `(x, y)` solid: existing tiles there turn solid; with none there a
/// solid tile is added to chunk `ci`.
pub open spec fn guard_step(cs: Seq<ChunkView>, x: isize, y: isize, ci: int) -> Seq<ChunkView> {
    if first_kind_at(flat_tiles(cs), x as int, y as int) is Some {
        solidify_chunks(cs, x, y)
    } else {
        append_tiles(cs, ci, seq![Tile { x, y, kind: TileKind::Solid }])
    }
}

/// Guards, left of the goal column, every height in `ys`, in order.
pub open spec fn guard_fold(cs: Seq<ChunkView>, gx: isize, ys: Seq<isize>, ci: int) -> Seq<ChunkView>
    decreases ys.len(),
{
    if ys.len() == 0 {
        cs
    } else {
        guard_step(guard_fold(cs, gx, ys.drop_last(), ci), (gx - 1) as isize, ys.last(), ci)
    }
}

/// The chunks once the goal column is extended down to `floor` (when its
/// lowest goal tile is above it) and guarded.
pub open spec fn spec_adjust_goal(cs: Seq<ChunkView>, floor: isize) -> Seq<ChunkView> {
    match goal_max_x(flat_tiles(cs)) {
        None => cs,
        Some(gx) => if gx == isize::MIN {
            cs
        } else {
            let ci = last_goal_chunk(cs, gx)->0;
            let min_y = seq_min(column_goal_ys(flat_tiles(cs), gx));
            let extended = if min_y > floor {
                append_tiles(cs, ci, goal_run(gx, floor as int, min_y as int))
            } else {
                cs
            };
            guard_fold(extended, gx, column_goal_ys(flat_tiles(extended), gx), ci)
        },
    }
}

/// All chunk tiles in one vector, chunk after chunk.
pub fn flatten_tiles(chunks: &Vec<PlacedChunk>) -> (r: Vec<Tile>)
    ensures
        r@ == flat_tiles(chunk_views(chunks@)),
{
    let ghost cv = chunk_views(chunks@);
    let mut out: Vec<Tile> = Vec::new();
    let mut i: usize = 0;
    while i < chunks.len()
        invariant
            i <= chunks.len(),
            cv == chunk_views(chunks@),
            out@ == flat_tiles(cv.take(i as int)),
        decreases chunks.len() - i,
    {
        let chunk = &chunks[i];
        let ghost before = out@;
        let mut j: usize = 0;
        while j < chunk.tiles_world.len()
            invariant
                j <= chunk.tiles_world.len(),
                out@ == before + chunk.tiles_world@.take(j as int),
            decreases chunk.tiles_world.len() - j,
        {
            out.push(chunk.tiles_world[j]);
            proof {
                assert(chunk.tiles_world@.take(j + 1) =~= chunk.tiles_world@.take(j as int).push(chunk.tiles_world@[j as int]));
            }
            j += 1;
        }
        proof {
            assert(chunk.tiles_world@.take(j as int) =~= chunk.tiles_world@);
            assert(cv.take(i + 1).drop_last() =~= cv.take(i as int));
            assert(cv.take(i + 1).last() == chunk@);
        }
        i += 1;
    }
    proof {
        assert(cv.take(chunks.len() as int) =~= cv);
    }
    out
}

fn find_goal_max_x(ts: &Vec<Tile>) -> (r: Option<isize>)
    ensures
        r == goal_max_x(ts@),
{
    let mut best: Option<isize> = None;
    let mut i: usize = 0;
    while i < ts.len()
        invariant
            i <= ts.len(),
            best == goal_max_x(ts@.take(i as int)),
        decreases ts.len() - i,
    {
        let t = ts[i];
        proof {
            assert(ts@.take(i + 1).drop_last() =~= ts@.take(i as int));
            assert(ts@.take(i + 1).last() == t);
        }
        if t.kind == TileKind::Goal {
            best = match best {
                Some(m) => if t.x > m {
                    Some(t.x)
                } else {
                    Some(m)
                },
                None => Some(t.x),
            };
        }
        i += 1;
    }
    proof {
        assert(ts@.take(ts.len() as int) =~= ts@);
    }
    best
}

fn find_column_goal_ys(ts: &Vec<Tile>, gx: isize) -> (r: Vec<isize>)
    ensures
        r@ == column_goal_ys(ts@, gx),
{
    let mut out: Vec<isize> = Vec::new();
    let mut i: usize = 0;
    while i < ts.len()
        invariant
            i <= ts.len(),
            out@ == column_goal_ys(ts@.take(i as int), gx),
        decreases ts.len() - i,
    {
        let t = ts[i];
        proof {
            assert(ts@.take(i + 1).drop_last() =~= ts@.take(i as int));
            assert(ts@.take(i + 1).last() == t);
        }
        if t.kind == TileKind::Goal && t.x == gx {
            out.push(t.y);
        }
        i += 1;
    }
    proof {
        assert(ts@.take(ts.len() as int) =~= ts@);
    }
    out
}

fn find_min(s: &Vec<isize>) -> (r: isize)
    ensures
        r == seq_min(s@),
{
    let mut m: isize = isize::MAX;
    let mut i: usize = 0;
    while i < s.len()
        invariant
            i <= s.len(),
            m == seq_min(s@.take(i as int)),
        decreases s.len() - i,
    {
        proof {
            assert(s@.take(i + 1).drop_last() =~= s@.take(i as int));
            assert(s@.take(i + 1).last() == s@[i as int]);
        }
        if s[i] < m {
            m = s[i];
        }
        i += 1;
    }
    proof {
        assert(s@.take(s.len() as int) =~= s@);
    }
    m
}

fn find_last_goal_chunk(chunks: &Vec<PlacedChunk>, gx: isize) -> (r: Option<usize>)
    ensures
        r matches Some(i) ==> i < chunks.len(),
        r == (match last_goal_chunk(chunk_views(chunks@), gx) {
            Some(i) => Some(i as usize),
            None => None,
        }),
{
    let ghost cv = chunk_views(chunks@);
    let mut found: Option<usize> = None;
    let mut i: usize = 0;
    while i < chunks.len()
        invariant
            i <= chunks.len(),
            cv == chunk_views(chunks@),
            found matches Some(k) ==> k < i,
            found == (match last_goal_chunk(cv.take(i as int), gx) {
                Some(k) => Some(k as usize),
                None => None,
            }),
            last_goal_chunk(cv.take(i as int), gx) matches Some(k) ==> 0 <= k < i,
        decreases chunks.len() - i,
    {
        let ys = find_column_goal_ys(&chunks[i].tiles_world, gx);
        proof {
            assert(cv.take(i + 1).drop_last() =~= cv.take(i as int));
            assert(cv.take(i + 1).last() == chunks@[i as int]@);
        }
        if ys.len() > 0 {
            found = Some(i);
        }
        i += 1;
    }
    proof {
        assert(cv.take(chunks.len() as int) =~= cv);
    }
    found
}

/// A copy of the chunk with the extra tiles appended.
fn with_extra_tiles(c: &PlacedChunk, extra: &Vec<Tile>) -> (r: PlacedChunk)
    ensures
        r@ == (ChunkView { id: c@.id, exits: c@.exits, tiles: c@.tiles + extra@ }),
{
    let mut d = c.duplicate();
    let ghost before = d.tiles_world@;
    let mut i: usize = 0;
    while i < extra.len()
        invariant
            i <= extra.len(),
            d.id@ == c.id@,
            d.exits_world@ == c.exits_world@,
            before == c.tiles_world@,
            d.tiles_world@ == before + extra@.take(i as int),
        decreases extra.len() - i,
    {
        d.tiles_world.push(extra[i]);
        proof {
            assert(extra@.take(i + 1) =~= extra@.take(i as int).push(extra@[i as int]));
        }
        i += 1;
    }
    proof {
        assert(extra@.take(extra.len() as int) =~= extra@);
    }
    d
}

/// Appends the extra tiles to chunk `ci`.
fn append_to_chunk(chunks: &mut Vec<PlacedChunk>, ci: usize, extra: &Vec<Tile>)
    requires
        ci < old(chunks).len(),
    ensures
        final(chunks).len() == old(chunks).len(),
        chunk_views(final(chunks)@) == append_tiles(chunk_views(old(chunks)@), ci as int, extra@),
{
    let c = with_extra_tiles(&chunks[ci], extra);
    let ghost before = chunks@;
    chunks.set(ci, c);
    proof {
        assert(chunk_views(chunks@) =~= append_tiles(chunk_views(before), ci as int, extra@));
    }
}

/// A copy of the chunk with its tiles at `(x, y)` turned solid.
fn solidify_chunk(c: &PlacedChunk, x: isize, y: isize) -> (r: PlacedChunk)
    ensures
        r@ == (ChunkView { id: c@.id, exits: c@.exits, tiles: solidify(c@.tiles, x, y) }),
{
    let d = c.duplicate();
    let mut tiles: Vec<Tile> = Vec::new();
    let mut i: usize = 0;
    while i < c.tiles_world.len()
        invariant
            i <= c.tiles_world.len(),
            tiles@ == solidify(c.tiles_world@.take(i as int), x, y),
        decreases c.tiles_world.len() - i,
    {
        let t = c.tiles_world[i];
        if t.x == x && t.y == y {
            tiles.push(Tile { x: t.x, y: t.y, kind: TileKind::Solid });
        } else {
            tiles.push(t);
        }
        proof {
            assert(c.tiles_world@.take(i + 1) =~= c.tiles_world@.take(i as int).push(t));
            assert(tiles@ =~= solidify(c.tiles_world@.take(i + 1), x, y));
        }
        i += 1;
    }
    proof {
        assert(c.tiles_world@.take(c.tiles_world.len() as int) =~= c.tiles_world@);
    }
    PlacedChunk { id: d.id, exits_world: d.exits_world, tiles_world: tiles }
}

fn solidify_all(chunks: &Vec<PlacedChunk>, x: isize, y: isize) -> (r: Vec<PlacedChunk>)
    ensures
        chunk_views(r@) == solidify_chunks(chunk_views(chunks@), x, y),
{
    let ghost cv = chunk_views(chunks@);
    let mut out: Vec<PlacedChunk> = Vec::new();
    let mut i: usize = 0;
    while i < chunks.len()
        invariant
            i <= chunks.len(),
            cv == chunk_views(chunks@),
            chunk_views(out@) == solidify_chunks(cv.take(i as int), x, y),
        decreases chunks.len() - i,
    {
        let c = solidify_chunk(&chunks[i], x, y);
        let ghost before = out@;
        out.push(c);
        proof {
            assert(cv.take(i + 1) =~= cv.take(i as int).push(chunks@[i as int]@));
            assert(chunk_views(out@) =~= chunk_views(before).push(c@));
            assert(chunk_views(out@) =~= solidify_chunks(cv.take(i + 1), x, y));
        }
        i += 1;
    }
    proof {
        assert(cv.take(chunks.len() as int) =~= cv);
    }
    out
}

/// Extends the goal column of the stage down to the floor of its playable
/// area and puts a solid tile left of every goal tile of that column. The
/// goal column is the rightmost column holding a goal tile; new tiles go to
/// the last chunk holding a goal tile in it.
pub fn adjust_goal_layout(map: &mut StageMap)
    ensures
        chunk_views(final(map).placed_chunks@) == spec_adjust_goal(
            chunk_views(old(map).placed_chunks@),
            old(map).boundary_margin.1,
        ),
        final(map).map_size == old(map).map_size,
        final(map).stone_type == old(map).stone_type,
        final(map).boundary_margin == old(map).boundary_margin,
        final(map).margin_tiles@ == old(map).margin_tiles@,
{
    let ghost cs = chunk_views(map.placed_chunks@);
    let flat = flatten_tiles(&map.placed_chunks);
    let goal_max = find_goal_max_x(&flat);
    if goal_max.is_none() {
        return;
    }
    let gx = goal_max.unwrap();
    if gx == isize::MIN {
        return;
    }
    let floor = map.boundary_margin.1;
    let column = find_column_goal_ys(&flat, gx);
    let min_goal_y = find_min(&column);
    let ci = find_last_goal_chunk(&map.placed_chunks, gx);
    proof {
        lemma_goal_column_nonempty(flat@, gx);
        lemma_column_in_some_chunk(cs, gx);
    }
    let ci = ci.unwrap();
    let mut chunks: Vec<PlacedChunk> = Vec::new();
    std::mem::swap(&mut chunks, &mut map.placed_chunks);
    if min_goal_y > floor {
        let mut run: Vec<Tile> = Vec::new();
        let mut y = floor;
        while y < min_goal_y
            invariant
                floor <= y <= min_goal_y,
                run@ == goal_run(gx, floor as int, y as int),
            decreases min_goal_y - y,
        {
            run.push(Tile { x: gx, y, kind: TileKind::Goal });
            proof {
                assert(run@ =~= goal_run(gx, floor as int, y + 1));
            }
            y += 1;
        }
        append_to_chunk(&mut chunks, ci, &run);
    }
    let ghost extended = chunk_views(chunks@);
    let flat2 = flatten_tiles(&chunks);
    let goal_ys = find_column_goal_ys(&flat2, gx);
    let guard_x = gx - 1;
    let mut i: usize = 0;
    while i < goal_ys.len()
        invariant
            i <= goal_ys.len(),
            ci < chunks.len(),
            guard_x == gx - 1,
            chunk_views(chunks@) == guard_fold(extended, gx, goal_ys@.take(i as int), ci as int),
        decreases goal_ys.len() - i,
    {
        let y = goal_ys[i];
        let ghost before = chunk_views(chunks@);
        proof {
            assert(goal_ys@.take(i + 1).drop_last() =~= goal_ys@.take(i as int));
            assert(goal_ys@.take(i + 1).last() == y);
        }
        let current = flatten_tiles(&chunks);
        let present = first_kind_in(&current, guard_x, y);
        if present.is_some() {
            chunks = solidify_all(&chunks, guard_x, y);
            proof {
                lemma_solidify_len(before, guard_x, y);
            }
        } else {
            let mut extra: Vec<Tile> = Vec::new();
            extra.push(Tile { x: guard_x, y, kind: TileKind::Solid });
            proof {
                assert(extra@ =~= seq![Tile { x: guard_x, y, kind: TileKind::Solid }]);
            }
            append_to_chunk(&mut chunks, ci, &extra);
        }
        i += 1;
    }
    proof {
        assert(goal_ys@.take(goal_ys.len() as int) =~= goal_ys@);
    }
    map.placed_chunks = chunks;
}

proof fn lemma_solidify_len(cs: Seq<ChunkView>, x: isize, y: isize)
    ensures
        solidify_chunks(cs, x, y).len() == cs.len(),
{
}

proof fn lemma_goal_column_nonempty(ts: Seq<Tile>, gx: isize)
    requires
        goal_max_x(ts) == Some(gx),
    ensures
        column_goal_ys(ts, gx).len() > 0,
    decreases ts.len(),
{
    if ts.len() > 0 {
        let t = ts.last();
        if goal_max_x(ts.drop_last()) == Some(gx) {
            lemma_goal_column_nonempty(ts.drop_last(), gx);
            lemma_column_len_grows(ts, gx);
        }
    }
}

proof fn lemma_column_len_grows(ts: Seq<Tile>, gx: isize)
    requires
        ts.len() > 0,
    ensures
        column_goal_ys(ts, gx).len() >= column_goal_ys(ts.drop_last(), gx).len(),
{
}

proof fn lemma_column_goal_ys_append(a: Seq<Tile>, b: Seq<Tile>, gx: isize)
    ensures
        column_goal_ys(a + b, gx) == column_goal_ys(a, gx) + column_goal_ys(b, gx),
    decreases b.len(),
{
    if b.len() == 0 {
        assert(a + b =~= a);
        assert(column_goal_ys(a, gx) + column_goal_ys(b, gx) =~= column_goal_ys(a, gx));
    } else {
        lemma_column_goal_ys_append(a, b.drop_last(), gx);
        assert((a + b).drop_last() =~= a + b.drop_last());
        assert((a + b).last() == b.last());
        assert(column_goal_ys(a + b, gx) =~= column_goal_ys(a, gx) + column_goal_ys(b, gx));
    }
}

/// A goal tile in the column of the whole stage lies in some chunk.
proof fn lemma_column_in_some_chunk(cs: Seq<ChunkView>, gx: isize)
    ensures
        column_goal_ys(flat_tiles(cs), gx).len() > 0 ==> last_goal_chunk(cs, gx) is Some,
        last_goal_chunk(cs, gx) matches Some(i) ==> 0 <= i < cs.len(),
    decreases cs.len(),
{
    if cs.len() > 0 {
        lemma_column_in_some_chunk(cs.drop_last(), gx);
        lemma_column_goal_ys_append(flat_tiles(cs.drop_last()), cs.last().tiles, gx);
    }
}

// ---------------------------------------------------------------------------
// What finishing the goal column guarantees.
// ---------------------------------------------------------------------------

/// Whether `t` lies at `(x, y)`.
pub open spec fn at_cell(t: Tile, x: isize, y: isize) -> bool {
    t.x == x && t.y == y
}

/// Whether some tile lies at `(x, y)` and every tile there is solid.
pub open spec fn guarded_at(ts: Seq<Tile>, x: isize, y: isize) -> bool {
    &&& exists|t: Tile| ts.contains(t) && at_cell(t, x, y)
    &&& forall|t: Tile| ts.contains(t) && at_cell(t, x, y) ==> t.kind == TileKind::Solid
}

/// Whether `a` and `b` hold the same tiles everywhere but at `(x, y)`.
pub open spec fn same_elsewhere(a: Seq<Tile>, b: Seq<Tile>, x: isize, y: isize) -> bool {
    forall|t: Tile| !at_cell(t, x, y) ==> (a.contains(t) <==> b.contains(t))
}

proof fn lemma_flat_contains(cs: Seq<ChunkView>, t: Tile)
    ensures
        flat_tiles(cs).contains(t) <==> exists|i: int| 0 <= i < cs.len() && (#[trigger] cs[i]).tiles.contains(t),
    decreases cs.len(),
{
    if cs.len() > 0 {
        let init = cs.drop_last();
        lemma_flat_contains(init, t);
        let a = flat_tiles(init);
        let b = cs.last().tiles;
        if (a + b).contains(t) {
            let k = choose|k: int| 0 <= k < (a + b).len() && (a + b)[k] == t;
            if k < a.len() {
                assert(a[k] == t);
                let i = choose|i: int| 0 <= i < init.len() && (#[trigger] init[i]).tiles.contains(t);
                assert(cs[i] == init[i]);
            } else {
                assert(b[k - a.len()] == t);
                assert(cs[cs.len() - 1] == cs.last());
            }
        }
        if exists|i: int| 0 <= i < cs.len() && (#[trigger] cs[i]).tiles.contains(t) {
            let i = choose|i: int| 0 <= i < cs.len() && (#[trigger] cs[i]).tiles.contains(t);
            if i < cs.len() - 1 {
                assert(init[i] == cs[i]);
                assert(a.contains(t));
                let k = choose|k: int| 0 <= k < a.len() && a[k] == t;
                assert((a + b)[k] == t);
            } else {
                let k = choose|k: int| 0 <= k < b.len() && b[k] == t;
                assert((a + b)[a.len() + k] == t);
            }
        }
    }
}

proof fn lemma_append_contains(cs: Seq<ChunkView>, ci: int, extra: Seq<Tile>, t: Tile)
    requires
        0 <= ci < cs.len(),
    ensures
        flat_tiles(append_tiles(cs, ci, extra)).contains(t) <==> (flat_tiles(cs).contains(t) || extra.contains(t)),
{
    let ds = append_tiles(cs, ci, extra);
    lemma_flat_contains(cs, t);
    lemma_flat_contains(ds, t);
    let old_c = cs[ci].tiles;
    assert(ds[ci].tiles == old_c + extra);
    if exists|i: int| 0 <= i < ds.len() && (#[trigger] ds[i]).tiles.contains(t) {
        let i = choose|i: int| 0 <= i < ds.len() && (#[trigger] ds[i]).tiles.contains(t);
        if i == ci {
            let k = choose|k: int| 0 <= k < (old_c + extra).len() && (old_c + extra)[k] == t;
            if k < old_c.len() {
                assert(old_c[k] == t);
                assert(cs[ci].tiles.contains(t));
            } else {
                assert(extra[k - old_c.len()] == t);
            }
        } else {
            assert(cs[i] == ds[i]);
        }
    }
    if flat_tiles(cs).contains(t) {
        let i = choose|i: int| 0 <= i < cs.len() && (#[trigger] cs[i]).tiles.contains(t);
        if i == ci {
            let k = choose|k: int| 0 <= k < old_c.len() && old_c[k] == t;
            assert((old_c + extra)[k] == t);
            assert(ds[ci].tiles.contains(t));
        } else {
            assert(ds[i] == cs[i]);
        }
    }
    if extra.contains(t) {
        let k = choose|k: int| 0 <= k < extra.len() && extra[k] == t;
        assert((old_c + extra)[old_c.len() + k] == t);
        assert(ds[ci].tiles.contains(t));
    }
}

proof fn lemma_solidify_flat(cs: Seq<ChunkView>, x: isize, y: isize)
    ensures
        flat_tiles(solidify_chunks(cs, x, y)) == solidify(flat_tiles(cs), x, y),
    decreases cs.len(),
{
    if cs.len() > 0 {
        lemma_solidify_flat(cs.drop_last(), x, y);
        assert(solidify_chunks(cs, x, y).drop_last() =~= solidify_chunks(cs.drop_last(), x, y));
        assert(solidify(flat_tiles(cs.drop_last()) + cs.last().tiles, x, y) =~= solidify(
            flat_tiles(cs.drop_last()),
            x,
            y,
        ) + solidify(cs.last().tiles, x, y));
    }
}

proof fn lemma_solidify_contains(ts: Seq<Tile>, x: isize, y: isize)
    ensures
        guarded_at(ts, x, y) || (exists|t: Tile| ts.contains(t) && at_cell(t, x, y)) ==> guarded_at(
            solidify(ts, x, y),
            x,
            y,
        ),
        same_elsewhere(ts, solidify(ts, x, y), x, y),
{
    let s = solidify(ts, x, y);
    assert forall|t: Tile| !at_cell(t, x, y) implies (ts.contains(t) <==> s.contains(t)) by {
        if ts.contains(t) {
            let k = choose|k: int| 0 <= k < ts.len() && ts[k] == t;
            assert(s[k] == t);
        }
        if s.contains(t) {
            let k = choose|k: int| 0 <= k < s.len() && s[k] == t;
            assert(ts[k] == t);
        }
    }
    if exists|t: Tile| ts.contains(t) && at_cell(t, x, y) {
        let t = choose|t: Tile| ts.contains(t) && at_cell(t, x, y);
        let k = choose|k: int| 0 <= k < ts.len() && ts[k] == t;
        assert(s.contains(s[k]) && at_cell(s[k], x, y));
        assert forall|u: Tile| s.contains(u) && at_cell(u, x, y) implies u.kind == TileKind::Solid by {
            let j = choose|j: int| 0 <= j < s.len() && s[j] == u;
            assert(at_cell(ts[j], x, y));
        }
    }
}

proof fn lemma_first_kind_some(ts: Seq<Tile>, x: isize, y: isize)
    ensures
        first_kind_at(ts, x as int, y as int) is Some <==> exists|t: Tile| ts.contains(t) && at_cell(t, x, y),
        first_kind_at(ts, x as int, y as int) matches Some(k) ==> exists|t: Tile|
            ts.contains(t) && at_cell(t, x, y) && t.kind == k,
    decreases ts.len(),
{
    if ts.len() > 0 {
        let init = ts.drop_last();
        let last = ts.last();
        lemma_first_kind_some(init, x, y);
        assert(ts.contains(last)) by {
            assert(ts[ts.len() - 1] == last);
        }
        assert forall|t: Tile| init.contains(t) implies ts.contains(t) by {
            let k = choose|k: int| 0 <= k < init.len() && init[k] == t;
            assert(ts[k] == t);
        }
        assert forall|t: Tile| ts.contains(t) && t != last implies init.contains(t) by {
            let k = choose|k: int| 0 <= k < ts.len() && ts[k] == t;
            assert(k != ts.len() - 1);
            assert(init[k] == t);
        }
        if first_kind_at(init, x as int, y as int) is Some {
            let kind = first_kind_at(init, x as int, y as int)->0;
            let t = choose|t: Tile| init.contains(t) && at_cell(t, x, y) && t.kind == kind;
            assert(ts.contains(t) && at_cell(t, x, y) && t.kind == kind);
        } else if at_cell(last, x, y) {
            assert(ts.contains(last) && at_cell(last, x, y) && last.kind == last.kind);
        } else {
            assert forall|t: Tile| !(ts.contains(t) && at_cell(t, x, y)) by {
                if ts.contains(t) && at_cell(t, x, y) {
                    assert(t != last);
                    assert(init.contains(t));
                }
            }
        }
    }
}

proof fn lemma_guard_step(cs: Seq<ChunkView>, x: isize, y: isize, ci: int)
    requires
        0 <= ci < cs.len(),
    ensures
        guard_step(cs, x, y, ci).len() == cs.len(),
        guarded_at(flat_tiles(guard_step(cs, x, y, ci)), x, y),
        same_elsewhere(flat_tiles(cs), flat_tiles(guard_step(cs, x, y, ci)), x, y),
{
    let flat = flat_tiles(cs);
    lemma_first_kind_some(flat, x, y);
    if first_kind_at(flat, x as int, y as int) is Some {
        lemma_solidify_flat(cs, x, y);
        lemma_solidify_contains(flat, x, y);
    } else {
        let s = Tile { x, y, kind: TileKind::Solid };
        let ds = append_tiles(cs, ci, seq![s]);
        assert forall|t: Tile| #[trigger] flat_tiles(ds).contains(t) <==> (flat.contains(t) || seq![s].contains(t)) by {
            lemma_append_contains(cs, ci, seq![s], t);
        }
        assert(seq![s][0] == s);
        assert(flat_tiles(ds).contains(s));
        assert forall|t: Tile| flat_tiles(ds).contains(t) && at_cell(t, x, y) implies t.kind == TileKind::Solid by {
            if !seq![s].contains(t) {
                assert(flat.contains(t));
            } else {
                let k = choose|k: int| 0 <= k < 1 && seq![s][k] == t;
                assert(t == s);
            }
        }
        assert forall|t: Tile| !at_cell(t, x, y) implies (flat.contains(t) <==> flat_tiles(ds).contains(t)) by {
            if seq![s].contains(t) {
                let k = choose|k: int| 0 <= k < 1 && seq![s][k] == t;
                assert(t == s);
            }
        }
    }
}

proof fn lemma_guarded_kept(a: Seq<Tile>, b: Seq<Tile>, x: isize, y: isize, gx: isize, gy: isize)
    requires
        guarded_at(a, gx, gy),
        same_elsewhere(a, b, x, y),
        !(x == gx && y == gy),
    ensures
        guarded_at(b, gx, gy),
{
    let t = choose|t: Tile| a.contains(t) && at_cell(t, gx, gy);
    assert(b.contains(t));
}

proof fn lemma_guard_fold(cs: Seq<ChunkView>, gx: isize, ys: Seq<isize>, ci: int)
    requires
        0 <= ci < cs.len(),
        gx != isize::MIN,
    ensures
        guard_fold(cs, gx, ys, ci).len() == cs.len(),
        forall|j: int| 0 <= j < ys.len() ==> guarded_at(flat_tiles(guard_fold(cs, gx, ys, ci)), (gx - 1) as isize, #[trigger] ys[j]),
        forall|t: Tile| t.x != gx - 1 ==> (flat_tiles(cs).contains(t) <==> flat_tiles(guard_fold(cs, gx, ys, ci)).contains(t)),
    decreases ys.len(),
{
    if ys.len() > 0 {
        let init = ys.drop_last();
        lemma_guard_fold(cs, gx, init, ci);
        let before = guard_fold(cs, gx, init, ci);
        let y = ys.last();
        lemma_guard_step(before, (gx - 1) as isize, y, ci);
        let after = guard_fold(cs, gx, ys, ci);
        assert forall|t: Tile| t.x != gx - 1 implies (flat_tiles(cs).contains(t) <==> flat_tiles(after).contains(t)) by {
            assert(!at_cell(t, (gx - 1) as isize, y));
        }
        assert forall|j: int| 0 <= j < ys.len() implies guarded_at(flat_tiles(after), (gx - 1) as isize, #[trigger] ys[j]) by {
            if j < ys.len() - 1 && ys[j] != y {
                assert(ys[j] == init[j]);
                lemma_guarded_kept(flat_tiles(before), flat_tiles(after), (gx - 1) as isize, y, (gx - 1) as isize, ys[j]);
            }
        }
    }
}

proof fn lemma_column_contains(ts: Seq<Tile>, gx: isize, t: Tile)
    requires
        ts.contains(t),
        t.kind == TileKind::Goal,
        t.x == gx,
    ensures
        column_goal_ys(ts, gx).contains(t.y),
    decreases ts.len(),
{
    let init = ts.drop_last();
    if ts.last() == t {
        assert(column_goal_ys(ts, gx) == column_goal_ys(init, gx).push(t.y));
        assert(column_goal_ys(ts, gx)[column_goal_ys(init, gx).len() as int] == t.y);
    } else {
        let k = choose|k: int| 0 <= k < ts.len() && ts[k] == t;
        assert(k < ts.len() - 1);
        assert(init[k] == t);
        lemma_column_contains(init, gx, t);
        let j = choose|j: int| 0 <= j < column_goal_ys(init, gx).len() && column_goal_ys(init, gx)[j] == t.y;
        if ts.last().kind == TileKind::Goal && ts.last().x == gx {
            assert(column_goal_ys(ts, gx)[j] == t.y);
        } else {
            assert(column_goal_ys(ts, gx)[j] == t.y);
        }
    }
}

/// The goal column once it is extended down to `floor`: the chunks before
/// the guards are added.
pub open spec fn spec_extend_goal(cs: Seq<ChunkView>, floor: isize, gx: isize) -> Seq<ChunkView> {
    let ci = last_goal_chunk(cs, gx)->0;
    let min_y = seq_min(column_goal_ys(flat_tiles(cs), gx));
    if min_y > floor {
        append_tiles(cs, ci, goal_run(gx, floor as int, min_y as int))
    } else {
        cs
    }
}

/// Once the goal column is finished, every goal tile in it has only solid
/// tiles on its left, and at least one: the player cannot walk into the
/// goal from the side.
pub proof fn lemma_goal_column_guarded(cs: Seq<ChunkView>, floor: isize, t: Tile)
    requires
        goal_max_x(flat_tiles(cs)) == Some(t.x),
        t.x != isize::MIN,
        t.kind == TileKind::Goal,
        flat_tiles(spec_adjust_goal(cs, floor)).contains(t),
    ensures
        guarded_at(flat_tiles(spec_adjust_goal(cs, floor)), (t.x - 1) as isize, t.y),
        first_kind_at(flat_tiles(spec_adjust_goal(cs, floor)), t.x - 1, t.y as int) == Some(TileKind::Solid),
{
    let gx = t.x;
    let ci = last_goal_chunk(cs, gx)->0;
    lemma_goal_column_nonempty(flat_tiles(cs), gx);
    lemma_column_in_some_chunk(cs, gx);
    let extended = spec_extend_goal(cs, floor, gx);
    assert(extended.len() == cs.len());
    let ys = column_goal_ys(flat_tiles(extended), gx);
    lemma_guard_fold(extended, gx, ys, ci);
    let fin = spec_adjust_goal(cs, floor);
    assert(fin == guard_fold(extended, gx, ys, ci));
    assert(flat_tiles(extended).contains(t));
    lemma_column_contains(flat_tiles(extended), gx, t);
    let j = choose|j: int| 0 <= j < ys.len() && ys[j] == t.y;
    assert(guarded_at(flat_tiles(fin), (gx - 1) as isize, ys[j]));
    lemma_first_kind_some(flat_tiles(fin), (gx - 1) as isize, t.y);
}

/// Once the goal column is finished it reaches down to the floor: every cell
/// of the column from the floor up to its lowest goal tile before holds a
/// goal tile.
pub proof fn lemma_goal_column_reaches_floor(cs: Seq<ChunkView>, floor: isize, gx: isize, y: isize)
    requires
        goal_max_x(flat_tiles(cs)) == Some(gx),
        gx != isize::MIN,
        floor <= y < seq_min(column_goal_ys(flat_tiles(cs), gx)),
    ensures
        flat_tiles(spec_adjust_goal(cs, floor)).contains(Tile { x: gx, y, kind: TileKind::Goal }),
{
    let ci = last_goal_chunk(cs, gx)->0;
    lemma_goal_column_nonempty(flat_tiles(cs), gx);
    lemma_column_in_some_chunk(cs, gx);
    let min_y = seq_min(column_goal_ys(flat_tiles(cs), gx));
    let run = goal_run(gx, floor as int, min_y as int);
    let t = Tile { x: gx, y, kind: TileKind::Goal };
    assert(run[y - floor] == t);
    assert(run.contains(t));
    let extended = spec_extend_goal(cs, floor, gx);
    lemma_append_contains(cs, ci, run, t);
    let ys = column_goal_ys(flat_tiles(extended), gx);
    lemma_guard_fold(extended, gx, ys, ci);
    assert(spec_adjust_goal(cs, floor) == guard_fold(extended, gx, ys, ci));
}

} // verus!
