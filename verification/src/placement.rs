use vstd::prelude::*;

use crate::chunk_grammar::{spec_opposite, ChunkView, Dir, InnerChunkTemplate, PlacedChunk, Port, TemplateView, Tile};

verus! {

// ---------------------------------------------------------------------------
// Laying templates down in world coordinates.
// ---------------------------------------------------------------------------

pub open spec fn in_isize(v: int) -> bool {
    isize::MIN <= v <= isize::MAX
}

pub open spec fn shift_tile(t: Tile, dx: int, dy: int) -> Tile {
    Tile { x: (t.x + dx) as isize, y: (t.y + dy) as isize, kind: t.kind }
}

pub open spec fn shift_port(p: Port, dx: int, dy: int) -> Port {
    Port { x: (p.x + dx) as isize, y: (p.y + dy) as isize, dir: p.dir }
}

/// Every tile stays representable after the shift.
pub open spec fn tiles_shift_fit(ts: Seq<Tile>, dx: int, dy: int) -> bool {
    forall|i: int| 0 <= i < ts.len() ==> in_isize((#[trigger] ts[i]).x + dx) && in_isize(ts[i].y + dy)
}

/// Every port stays representable after the shift.
pub open spec fn ports_shift_fit(ps: Seq<Port>, dx: int, dy: int) -> bool {
    forall|i: int| 0 <= i < ps.len() ==> in_isize((#[trigger] ps[i]).x + dx) && in_isize(ps[i].y + dy)
}

pub open spec fn shift_tiles_seq(ts: Seq<Tile>, dx: int, dy: int) -> Seq<Tile> {
    ts.map_values(|t: Tile| shift_tile(t, dx, dy))
}

pub open spec fn shift_ports_seq(ps: Seq<Port>, dx: int, dy: int) -> Seq<Port> {
    ps.map_values(|p: Port| shift_port(p, dx, dy))
}

/// A template laid down with its origin at `(dx, dy)`.
pub open spec fn spec_place(t: TemplateView, dx: int, dy: int) -> ChunkView {
    ChunkView {
        id: t.id,
        exits: shift_ports_seq(t.exits, dx, dy),
        tiles: shift_tiles_seq(t.tiles, dx, dy),
    }
}

pub open spec fn place_fits(t: TemplateView, dx: int, dy: int) -> bool {
    tiles_shift_fit(t.tiles, dx, dy) && ports_shift_fit(t.exits, dx, dy)
}

/// Shifts every tile, or gives `None` when some coordinate would overflow.
pub fn shift_tiles(tiles: &Vec<Tile>, dx: isize, dy: isize) -> (r: Option<Vec<Tile>>)
    ensures
        r is Some <==> tiles_shift_fit(tiles@, dx as int, dy as int),
        r is Some ==> r->0@ == shift_tiles_seq(tiles@, dx as int, dy as int),
{
    let mut out: Vec<Tile> = Vec::new();
    let mut i: usize = 0;
    while i < tiles.len()
        invariant
            i <= tiles.len(),
            out@ == shift_tiles_seq(tiles@.take(i as int), dx as int, dy as int),
            forall|k: int| 0 <= k < i ==> in_isize((#[trigger] tiles@[k]).x + dx) && in_isize(tiles@[k].y + dy),
        decreases tiles.len() - i,
    {
        let t = tiles[i];
        let x = t.x.checked_add(dx);
        let y = t.y.checked_add(dy);
        if x.is_none() || y.is_none() {
            return None;
        }
        out.push(Tile { x: x.unwrap(), y: y.unwrap(), kind: t.kind });
        proof {
            assert(tiles@[i as int] == t);
            assert(in_isize(t.x + dx) && in_isize(t.y + dy));
            assert(tiles@.take(i + 1) =~= tiles@.take(i as int).push(t));
            assert(out@ =~= shift_tiles_seq(tiles@.take(i + 1), dx as int, dy as int));
        }
        i += 1;
    }
    proof {
        assert(tiles@.take(tiles.len() as int) =~= tiles@);
    }
    Some(out)
}

/// Shifts every port, or gives `None` when some coordinate would overflow.
pub fn shift_ports(ports: &Vec<Port>, dx: isize, dy: isize) -> (r: Option<Vec<Port>>)
    ensures
        r is Some <==> ports_shift_fit(ports@, dx as int, dy as int),
        r is Some ==> r->0@ == shift_ports_seq(ports@, dx as int, dy as int),
{
    let mut out: Vec<Port> = Vec::new();
    let mut i: usize = 0;
    while i < ports.len()
        invariant
            i <= ports.len(),
            out@ == shift_ports_seq(ports@.take(i as int), dx as int, dy as int),
            forall|k: int| 0 <= k < i ==> in_isize((#[trigger] ports@[k]).x + dx) && in_isize(ports@[k].y + dy),
        decreases ports.len() - i,
    {
        let p = ports[i];
        let x = p.x.checked_add(dx);
        let y = p.y.checked_add(dy);
        if x.is_none() || y.is_none() {
            return None;
        }
        out.push(Port { x: x.unwrap(), y: y.unwrap(), dir: p.dir });
        proof {
            assert(ports@[i as int] == p);
            assert(in_isize(p.x + dx) && in_isize(p.y + dy));
            assert(ports@.take(i + 1) =~= ports@.take(i as int).push(p));
            assert(out@ =~= shift_ports_seq(ports@.take(i + 1), dx as int, dy as int));
        }
        i += 1;
    }
    proof {
        assert(ports@.take(ports.len() as int) =~= ports@);
    }
    Some(out)
}

/// Lays a template down with its origin at `origin`. Gives `None` when a
/// coordinate would leave the range of `isize`.
pub fn place_chunk(t: &InnerChunkTemplate, origin: (isize, isize)) -> (r: Option<PlacedChunk>)
    ensures
        r is Some <==> place_fits(t@, origin.0 as int, origin.1 as int),
        r is Some ==> r->0@ == spec_place(t@, origin.0 as int, origin.1 as int),
{
    let exits_world = shift_ports(&t.exits, origin.0, origin.1);
    if exits_world.is_none() {
        return None;
    }
    let tiles_world = shift_tiles(&t.tiles, origin.0, origin.1);
    if tiles_world.is_none() {
        return None;
    }
    Some(PlacedChunk { id: t.id.clone(), exits_world: exits_world.unwrap(), tiles_world: tiles_world.unwrap() })
}

/// The first exit facing `want`, in the order the exits were listed.
pub open spec fn spec_first_exit(exits: Seq<Port>, want: Dir) -> Option<Port>
    decreases exits.len(),
{
    if exits.len() == 0 {
        None
    } else if exits[0].dir == want {
        Some(exits[0])
    } else {
        spec_first_exit(exits.drop_first(), want)
    }
}

/// Picks the first exit of a placed chunk that faces `want`.
pub fn pick_exit_dir(p: &PlacedChunk, want: Dir) -> (r: Option<Port>)
    ensures
        r == spec_first_exit(p.exits_world@, want),
        r matches Some(e) ==> e.dir == want,
{
    let ghost s = p.exits_world@;
    let n = p.exits_world.len();
    let mut i: usize = 0;
    proof {
        assert(s.subrange(0, n as int) =~= s);
    }
    while i < n
        invariant
            n == s.len(),
            s == p.exits_world@,
            i <= n,
            spec_first_exit(s, want) == spec_first_exit(s.subrange(i as int, n as int), want),
        decreases n - i,
    {
        let e = p.exits_world[i];
        proof {
            assert(s.subrange(i as int, n as int)[0] == e);
            assert(s.subrange(i as int, n as int).drop_first() =~= s.subrange(i + 1, n as int));
        }
        if e.dir == want {
            return Some(e);
        }
        i += 1;
    }
    None
}

/// Origin that puts the template's entry onto `at`.
pub open spec fn attach_origin(t: TemplateView, at: Port) -> (int, int) {
    (at.x - t.entry.x, at.y - t.entry.y)
}

/// The template can be attached at `at` without overflow.
pub open spec fn attach_fits(t: TemplateView, at: Port) -> bool {
    let o = attach_origin(t, at);
    in_isize(o.0) && in_isize(o.1) && place_fits(t, o.0, o.1)
}

/// The template attached so that its entry lies on `at`.
pub open spec fn spec_attach(t: TemplateView, at: Port) -> ChunkView {
    let o = attach_origin(t, at);
    spec_place(t, o.0, o.1)
}

/// Lays `template` so that its entry meets the exit `exit`. The entry must
/// face `required_entry_dir` and the exit the opposite way.
pub fn place_next(template: &InnerChunkTemplate, required_entry_dir: Dir, exit: Port) -> (r: Option<PlacedChunk>)
    requires
        template.entry.dir == required_entry_dir,
        spec_opposite(required_entry_dir) == exit.dir,
    ensures
        r is Some <==> attach_fits(template@, exit),
        r is Some ==> r->0@ == spec_attach(template@, exit),
{
    let ox = exit.x.checked_sub(template.entry.x);
    let oy = exit.y.checked_sub(template.entry.y);
    if ox.is_none() || oy.is_none() {
        return None;
    }
    place_chunk(template, (ox.unwrap(), oy.unwrap()))
}

/// Every tile lies inside the `map_size` rectangle anchored at the origin.
pub open spec fn tiles_in_map(ts: Seq<Tile>, map_size: (isize, isize)) -> bool {
    forall|i: int|
        0 <= i < ts.len() ==> 0 <= #[trigger] ts[i].x < map_size.0 && 0 <= ts[i].y < map_size.1
}

/// Attaching a middle template at `at` keeps it in the map and leaves an exit
/// to the right below the top edge.
pub open spec fn middle_step_ok(t: TemplateView, at: Port, map_size: (isize, isize)) -> bool {
    &&& attach_fits(t, at)
    &&& tiles_in_map(spec_attach(t, at).tiles, map_size)
    &&& spec_first_exit(spec_attach(t, at).exits, Dir::Right) is Some
    &&& spec_first_exit(spec_attach(t, at).exits, Dir::Right)->0.y < map_size.1
}

/// Attaches a middle template to `current_exit` and returns it together with
/// its own right exit, or `None` when it would leave the map.
pub fn place_middle_chunk(template: &InnerChunkTemplate, current_exit: Port, map_size: (isize, isize)) -> (r: Option<(PlacedChunk, Port)>)
    requires
        template.entry.dir == Dir::Left,
        current_exit.dir == Dir::Right,
    ensures
        r is Some <==> middle_step_ok(template@, current_exit, map_size),
        r is Some ==> (r->0).1.dir == Dir::Right,
        r is Some ==> (r->0).0@ == spec_attach(template@, current_exit)
            && (r->0).1 == spec_first_exit(spec_attach(template@, current_exit).exits, Dir::Right)->0,
{
    let placed = place_next(template, Dir::Left, current_exit);
    if placed.is_none() {
        return None;
    }
    let placed = placed.unwrap();
    let mut i: usize = 0;
    while i < placed.tiles_world.len()
        invariant
            i <= placed.tiles_world.len(),
            placed@ == spec_attach(template@, current_exit),
            forall|k: int| 0 <= k < i ==> 0 <= #[trigger] placed.tiles_world@[k].x < map_size.0
                && 0 <= placed.tiles_world@[k].y < map_size.1,
        decreases placed.tiles_world.len() - i,
    {
        let tile = placed.tiles_world[i];
        if tile.x < 0 || tile.x >= map_size.0 || tile.y < 0 || tile.y >= map_size.1 {
            proof {
                assert(spec_attach(template@, current_exit).tiles[i as int] == tile);
            }
            return None;
        }
        i += 1;
    }
    let next_exit = pick_exit_dir(&placed, Dir::Right);
    if next_exit.is_none() {
        return None;
    }
    let next_exit = next_exit.unwrap();
    if next_exit.y >= map_size.1 {
        return None;
    }
    Some((placed, next_exit))
}

} // verus!
