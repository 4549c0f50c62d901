use vstd::prelude::*;
use vstd::string::*;
use vstd::utf8::{char_is_scalar, encode_scalar, encode_utf8};

use crate::stone_type::StoneType;

verus! {

/// Width and height of the whole stage grid, walls included.
pub const MAP_SIZE: (isize, isize) = (30, 20);

/// Side of a chunk through which a path leaves (or enters) it.
#[derive(Clone, Copy, Debug, PartialEq, Eq, Structural)]
pub enum Dir {
    Left,
    Right,
    Up,
    Down,
}

pub open spec fn spec_opposite(d: Dir) -> Dir {
    match d {
        Dir::Left => Dir::Right,
        Dir::Right => Dir::Left,
        Dir::Up => Dir::Down,
        Dir::Down => Dir::Up,
    }
}

impl Dir {
    /// The direction pointing the other way.
    pub fn opposite(self) -> (r: Dir)
        ensures
            r == spec_opposite(self),
    {
        match self {
            Dir::Left => Dir::Right,
            Dir::Right => Dir::Left,
            Dir::Up => Dir::Down,
            Dir::Down => Dir::Up,
        }
    }
}

/// Turning around twice gives back the direction one started from, and no direction is
/// its own opposite.
pub proof fn lemma_opposite_involutive(d: Dir)
    ensures
        spec_opposite(spec_opposite(d)) == d,
        spec_opposite(d) != d,
{
}

/// A connection point of a chunk template, in the template's own coordinates.
#[derive(Clone, Copy, Debug, PartialEq, Eq, Structural)]
pub struct Port {
    pub x: isize,
    pub y: isize,
    pub dir: Dir,
}

/// What occupies one cell of the stage grid.
#[derive(Clone, Copy, Debug, PartialEq, Eq, Hash, Structural)]
pub enum TileKind {
    Solid,
    PlayerSpawn,
    Stone,
    Goal,
    Wall,
}

/// One occupied cell. Its `y` grows upwards.
#[derive(Clone, Copy, Debug, PartialEq, Eq, Structural)]
pub struct Tile {
    pub x: isize,
    pub y: isize,
    pub kind: TileKind,
}

/// A chunk as written in a stage file: rows of characters, top row first.
/// `#` solid, `@` player spawn, `S` stone, `G` goal, `I` entry, `E` exit.
#[derive(Clone, Debug)]
pub struct ChunkTemplate {
    pub id: String,
    pub map: Vec<String>,
    pub required_count: usize,
}

/// A chunk template decoded into tiles and ports.
#[derive(Debug)]
pub struct InnerChunkTemplate {
    pub id: String,
    pub size: (isize, isize),
    pub entry: Port,
    pub exits: Vec<Port>,
    pub tiles: Vec<Tile>,
    pub required_count: usize,
}

/// Mathematical content of a decoded template.
pub struct TemplateView {
    pub id: Seq<char>,
    pub size: (isize, isize),
    pub entry: Port,
    pub exits: Seq<Port>,
    pub tiles: Seq<Tile>,
    pub required_count: usize,
}

impl View for InnerChunkTemplate {
    type V = TemplateView;

    open spec fn view(&self) -> TemplateView {
        TemplateView {
            id: self.id@,
            size: self.size,
            entry: self.entry,
            exits: self.exits@,
            tiles: self.tiles@,
            required_count: self.required_count,
        }
    }
}

/// A template laid down in world coordinates; its exits are world ports.
#[derive(Debug)]
pub struct PlacedChunk {
    pub id: String,
    pub exits_world: Vec<Port>,
    pub tiles_world: Vec<Tile>,
}

/// Mathematical content of a placed chunk.
pub struct ChunkView {
    pub id: Seq<char>,
    pub exits: Seq<Port>,
    pub tiles: Seq<Tile>,
}

impl View for PlacedChunk {
    type V = ChunkView;

    open spec fn view(&self) -> ChunkView {
        ChunkView { id: self.id@, exits: self.exits_world@, tiles: self.tiles_world@ }
    }
}

// ---------------------------------------------------------------------------
// Decoding a template from its character rows.
// ---------------------------------------------------------------------------

/// The tile kind that a character stands for, if any.
pub open spec fn cell_kind(c: char) -> Option<TileKind> {
    if c == '#' {
        Some(TileKind::Solid)
    } else if c == '@' {
        Some(TileKind::PlayerSpawn)
    } else if c == 'S' {
        Some(TileKind::Stone)
    } else if c == 'G' {
        Some(TileKind::Goal)
    } else {
        None
    }
}

/// Tiles of one row at height `y`, left to right.
pub open spec fn row_tiles(row: Seq<char>, y: int) -> Seq<Tile>
    decreases row.len(),
{
    if row.len() == 0 {
        Seq::empty()
    } else {
        let rest = row_tiles(row.drop_last(), y);
        match cell_kind(row.last()) {
            Some(k) => rest.push(Tile { x: (row.len() - 1) as isize, y: y as isize, kind: k }),
            None => rest,
        }
    }
}

/// Exits (`E`) of one row at height `y`, left to right; they point right.
pub open spec fn row_exits(row: Seq<char>, y: int) -> Seq<Port>
    decreases row.len(),
{
    if row.len() == 0 {
        Seq::empty()
    } else {
        let rest = row_exits(row.drop_last(), y);
        if row.last() == 'E' {
            rest.push(Port { x: (row.len() - 1) as isize, y: y as isize, dir: Dir::Right })
        } else {
            rest
        }
    }
}

/// The rightmost entry (`I`) of one row at height `y`; it points left.
pub open spec fn row_entry(row: Seq<char>, y: int) -> Option<Port>
    decreases row.len(),
{
    if row.len() == 0 {
        None
    } else if row.last() == 'I' {
        Some(Port { x: (row.len() - 1) as isize, y: y as isize, dir: Dir::Left })
    } else {
        row_entry(row.drop_last(), y)
    }
}

/// Tiles of the first rows of a grid of the given height, in reading order.
/// Row `i` (from the top) lies at height `height - 1 - i`.
pub open spec fn grid_tiles(rows: Seq<Seq<char>>, height: int) -> Seq<Tile>
    decreases rows.len(),
{
    if rows.len() == 0 {
        Seq::empty()
    } else {
        grid_tiles(rows.drop_last(), height) + row_tiles(rows.last(), height - rows.len())
    }
}

/// Exits of the first rows of a grid, in reading order.
pub open spec fn grid_exits(rows: Seq<Seq<char>>, height: int) -> Seq<Port>
    decreases rows.len(),
{
    if rows.len() == 0 {
        Seq::empty()
    } else {
        grid_exits(rows.drop_last(), height) + row_exits(rows.last(), height - rows.len())
    }
}

/// The entry met last in reading order, if any.
pub open spec fn grid_entry(rows: Seq<Seq<char>>, height: int) -> Option<Port>
    decreases rows.len(),
{
    if rows.len() == 0 {
        None
    } else {
        match row_entry(rows.last(), height - rows.len()) {
            Some(p) => Some(p),
            None => grid_entry(rows.drop_last(), height),
        }
    }
}

/// Length of a row in bytes, as its UTF-8 text takes them.
pub open spec fn byte_len(row: Seq<char>) -> int {
    encode_utf8(row).len() as int
}

/// Length in bytes of the longest row.
pub open spec fn grid_width(rows: Seq<Seq<char>>) -> int
    decreases rows.len(),
{
    if rows.len() == 0 {
        0
    } else {
        let w = grid_width(rows.drop_last());
        if byte_len(rows.last()) > w {
            byte_len(rows.last())
        } else {
            w
        }
    }
}

/// A row takes at least one byte per character.
proof fn lemma_chars_le_bytes(row: Seq<char>)
    ensures
        row.len() <= byte_len(row),
    decreases row.len(),
{
    if row.len() > 0 {
        lemma_chars_le_bytes(row.drop_first());
        assert(encode_scalar(row[0] as u32).len() >= 1);
    }
}

/// Appending a character adds its own encoding's bytes.
proof fn lemma_byte_len_push(row: Seq<char>, c: char)
    ensures
        byte_len(row.push(c)) == byte_len(row) + encode_scalar(c as u32).len(),
    decreases row.len(),
{
    let p = row.push(c);
    assert(encode_utf8(p) == encode_scalar(p[0] as u32) + encode_utf8(p.drop_first()));
    if row.len() == 0 {
        assert(p.drop_first() =~= Seq::<char>::empty());
        assert(p[0] == c);
        assert(encode_utf8(Seq::<char>::empty()).len() == 0);
        assert(encode_utf8(row).len() == 0);
    } else {
        lemma_byte_len_push(row.drop_first(), c);
        assert(p.drop_first() =~= row.drop_first().push(c));
        assert(p[0] == row[0]);
        assert(encode_utf8(row) == encode_scalar(row[0] as u32) + encode_utf8(row.drop_first()));
    }
}

/// How many bytes the UTF-8 encoding of `c` takes.
fn utf8_width(c: char) -> (r: usize)
    ensures
        r == encode_scalar(c as u32).len(),
        1 <= r <= 4,
{
    proof {
        char_is_scalar(c);
    }
    let code = c as u32;
    if code < 0x80 {
        1
    } else if code < 0x800 {
        2
    } else if code < 0x10000 {
        3
    } else {
        4
    }
}

/// Length in bytes of `row`, or `None` when it exceeds the signed
/// coordinate type.
fn byte_len_within(row: &str) -> (r: Option<usize>)
    ensures
        r is Some <==> byte_len(row@) <= isize::MAX,
        r matches Some(n) ==> n == byte_len(row@),
{
    let n = row.unicode_len();
    let mut total: usize = 0;
    let mut j: usize = 0;
    while j < n
        invariant
            n == row@.len(),
            j <= n,
            total == byte_len(row@.take(j as int)),
            total <= isize::MAX,
        decreases n - j,
    {
        let c = row.get_char(j);
        let w = utf8_width(c);
        proof {
            assert(row@.take(j + 1) =~= row@.take(j as int).push(c));
            lemma_byte_len_push(row@.take(j as int), c);
        }
        if total > isize::MAX as usize - w {
            proof {
                lemma_byte_len_prefix(row@, j + 1);
            }
            return None;
        }
        total = total + w;
        j += 1;
    }
    proof {
        assert(row@.take(n as int) =~= row@);
    }
    Some(total)
}

/// A prefix of a row takes no more bytes than the row.
proof fn lemma_byte_len_prefix(row: Seq<char>, k: int)
    requires
        0 <= k <= row.len(),
    ensures
        byte_len(row.take(k)) <= byte_len(row),
    decreases row.len() - k,
{
    if k < row.len() {
        lemma_byte_len_prefix(row, k + 1);
        assert(row.take(k + 1) =~= row.take(k).push(row[k]));
        lemma_byte_len_push(row.take(k), row[k]);
    } else {
        assert(row.take(k) =~= row);
    }
}

/// The character rows of a template.
pub open spec fn rows_of(map: Seq<String>) -> Seq<Seq<char>> {
    map.map_values(|s: String| s@)
}

impl ChunkTemplate {
    /// Row count and row lengths fit the signed coordinate type.
    pub open spec fn spec_fits(&self) -> bool {
        &&& self.map.len() <= isize::MAX
        &&& forall|i: int| 0 <= i < self.map.len() ==> byte_len(#[trigger] self.map@[i]@) <= isize::MAX
    }

    pub open spec fn spec_has_entry(&self) -> bool {
        grid_entry(rows_of(self.map@), self.map.len() as int) is Some
    }

    /// Whether every row count and row length fits the signed coordinate type.
    pub fn fits(&self) -> (r: bool)
        ensures
            r == self.spec_fits(),
    {
        if self.map.len() > isize::MAX as usize {
            return false;
        }
        let mut i: usize = 0;
        while i < self.map.len()
            invariant
                i <= self.map.len(),
                forall|k: int| 0 <= k < i ==> byte_len(#[trigger] self.map@[k]@) <= isize::MAX,
            decreases self.map.len() - i,
        {
            if byte_len_within(self.map[i].as_str()).is_none() {
                return false;
            }
            i += 1;
        }
        true
    }

    /// Whether some row holds an entry marker `I`.
    pub fn has_entry(&self) -> (r: bool)
        requires
            self.spec_fits(),
        ensures
            r == self.spec_has_entry(),
    {
        let g = self.decode();
        g.entry.is_some()
    }

    /// Reads the rows once, collecting tiles, exits, the last entry and the
    /// longest row length.
    fn decode(&self) -> (g: DecodedGrid)
        requires
            self.spec_fits(),
        ensures
            g.tiles@ == grid_tiles(rows_of(self.map@), self.map.len() as int),
            g.exits@ == grid_exits(rows_of(self.map@), self.map.len() as int),
            g.entry == grid_entry(rows_of(self.map@), self.map.len() as int),
            g.width as int == grid_width(rows_of(self.map@)),
    {
        let ghost rows = rows_of(self.map@);
        let n_rows = self.map.len();
        let height = n_rows as isize;
        let ghost h = n_rows as int;
        let mut tiles: Vec<Tile> = Vec::new();
        let mut exits: Vec<Port> = Vec::new();
        let mut entry: Option<Port> = None;
        let mut width: usize = 0;
        let mut i: usize = 0;
        while i < n_rows
            invariant
                self.spec_fits(),
                rows == rows_of(self.map@),
                n_rows == self.map.len(),
                height as int == h,
                h == n_rows,
                i <= n_rows,
                tiles@ == grid_tiles(rows.take(i as int), h),
                exits@ == grid_exits(rows.take(i as int), h),
                entry == grid_entry(rows.take(i as int), h),
                width as int == grid_width(rows.take(i as int)),
            decreases n_rows - i,
        {
            let row = self.map[i].as_str();
            let len = row.unicode_len();
            let y: isize = height - 1 - i as isize;
            let ghost r = rows[i as int];
            assert(r == row@);
            assert(len <= isize::MAX) by {
                assert(byte_len(self.map@[i as int]@) <= isize::MAX);
                lemma_chars_le_bytes(r);
            }
            let blen = row.len();
            assert(blen as int == byte_len(r)) by {
                assert(byte_len(self.map@[i as int]@) <= isize::MAX);
            }
            let ghost tiles0 = tiles@;
            let ghost exits0 = exits@;
            let ghost entry0 = entry;
            let mut j: usize = 0;
            while j < len
                invariant
                    len == r.len(),
                    r == row@,
                    len <= isize::MAX,
                    j <= len,
                    y as int == h - 1 - i,
                    tiles@ == tiles0 + row_tiles(r.take(j as int), y as int),
                    exits@ == exits0 + row_exits(r.take(j as int), y as int),
                    entry == (match row_entry(r.take(j as int), y as int) {
                        Some(p) => Some(p),
                        None => entry0,
                    }),
                decreases len - j,
            {
                let ch = row.get_char(j);
                let x = j as isize;
                proof {
                    assert(r.take(j + 1).drop_last() =~= r.take(j as int));
                    assert(r.take(j + 1).last() == ch);
                }
                if ch == '#' {
                    tiles.push(Tile { x, y, kind: TileKind::Solid });
                } else if ch == '@' {
                    tiles.push(Tile { x, y, kind: TileKind::PlayerSpawn });
                } else if ch == 'S' {
                    tiles.push(Tile { x, y, kind: TileKind::Stone });
                } else if ch == 'G' {
                    tiles.push(Tile { x, y, kind: TileKind::Goal });
                } else if ch == 'I' {
                    entry = Some(Port { x, y, dir: Dir::Left });
                } else if ch == 'E' {
                    exits.push(Port { x, y, dir: Dir::Right });
                }
                proof {
                    assert(tiles@ =~= tiles0 + row_tiles(r.take(j + 1), y as int));
                    assert(exits@ =~= exits0 + row_exits(r.take(j + 1), y as int));
                }
                j += 1;
            }
            proof {
                assert(r.take(len as int) =~= r);
                assert(rows.take(i + 1).drop_last() =~= rows.take(i as int));
                assert(rows.take(i + 1).last() == r);
            }
            if blen > width {
                width = blen;
            }
            i += 1;
        }
        proof {
            assert(rows.take(n_rows as int) =~= rows);
        }
        DecodedGrid { width, tiles, exits, entry }
    }

    /// Decodes the rows into tiles and ports. Starting chunks are decoded
    /// without an entry (`check_entry` false) and get a left-facing port at
    /// the origin; the others must hold an `I`.
    pub fn to_inner_template(&self, check_entry: bool) -> (t: InnerChunkTemplate)
        requires
            self.spec_fits(),
            check_entry ==> self.spec_has_entry(),
        ensures
            t@ == spec_inner_template(self, check_entry),
    {
        let g = self.decode();
        let entry = if check_entry {
            g.entry.unwrap()
        } else {
            Port { x: 0, y: 0, dir: Dir::Left }
        };
        InnerChunkTemplate {
            id: self.id.clone(),
            size: (g.width as isize, self.map.len() as isize),
            entry,
            exits: g.exits,
            tiles: g.tiles,
            required_count: self.required_count,
        }
    }
}

/// The decoded form of a template, as a mathematical value.
pub open spec fn spec_inner_template(c: &ChunkTemplate, check_entry: bool) -> TemplateView {
    let rows = rows_of(c.map@);
    let h = c.map.len() as int;
    TemplateView {
        id: c.id@,
        size: (grid_width(rows) as isize, h as isize),
        entry: if check_entry {
            grid_entry(rows, h).unwrap()
        } else {
            Port { x: 0, y: 0, dir: Dir::Left }
        },
        exits: grid_exits(rows, h),
        tiles: grid_tiles(rows, h),
        required_count: c.required_count,
    }
}

/// A decoded middle or goal template: its entry faces left and lies inside the
/// template, and each exit faces right with non-negative coordinates.
pub open spec fn template_wf(t: TemplateView) -> bool {
    &&& t.entry.dir == Dir::Left
    &&& 0 <= t.entry.x && 0 <= t.entry.y
    &&& (t.entry.x < t.size.0 && t.entry.y < t.size.1 || t.entry.x == 0 && t.entry.y == 0)
    &&& t.size.0 >= 0 && t.size.1 >= 0
    &&& forall|i: int|
        0 <= i < t.exits.len() ==> (#[trigger] t.exits[i]).dir == Dir::Right && 0 <= t.exits[i].x
            && 0 <= t.exits[i].y
}

proof fn lemma_row_exits_wf(row: Seq<char>, y: int)
    requires
        0 <= y <= isize::MAX,
        row.len() <= isize::MAX + 1,
    ensures
        forall|i: int|
            0 <= i < row_exits(row, y).len() ==> (#[trigger] row_exits(row, y)[i]).dir == Dir::Right
                && 0 <= row_exits(row, y)[i].x && row_exits(row, y)[i].y == y,
    decreases row.len(),
{
    if row.len() > 0 {
        lemma_row_exits_wf(row.drop_last(), y);
    }
}

proof fn lemma_grid_exits_wf(rows: Seq<Seq<char>>, h: int)
    requires
        rows.len() <= h <= isize::MAX,
        forall|i: int| 0 <= i < rows.len() ==> #[trigger] rows[i].len() <= isize::MAX,
    ensures
        forall|i: int|
            0 <= i < grid_exits(rows, h).len() ==> (#[trigger] grid_exits(rows, h)[i]).dir == Dir::Right
                && 0 <= grid_exits(rows, h)[i].x && 0 <= grid_exits(rows, h)[i].y,
    decreases rows.len(),
{
    if rows.len() > 0 {
        lemma_grid_exits_wf(rows.drop_last(), h);
        lemma_row_exits_wf(rows.last(), h - rows.len());
        let a = grid_exits(rows.drop_last(), h);
        let b = row_exits(rows.last(), h - rows.len());
        assert forall|i: int| 0 <= i < grid_exits(rows, h).len() implies (#[trigger] grid_exits(rows, h)[i]).dir
            == Dir::Right && 0 <= grid_exits(rows, h)[i].x && 0 <= grid_exits(rows, h)[i].y by {
            if i < a.len() {
                assert(grid_exits(rows, h)[i] == a[i]);
            } else {
                assert(grid_exits(rows, h)[i] == b[i - a.len()]);
            }
        }
    }
}

proof fn lemma_row_entry_wf(row: Seq<char>, y: int)
    requires
        0 <= y <= isize::MAX,
        row.len() <= isize::MAX + 1,
    ensures
        row_entry(row, y) matches Some(p) ==> p.dir == Dir::Left && 0 <= p.x < row.len() && p.y == y,
    decreases row.len(),
{
    if row.len() > 0 {
        lemma_row_entry_wf(row.drop_last(), y);
    }
}

proof fn lemma_grid_entry_wf(rows: Seq<Seq<char>>, h: int)
    requires
        rows.len() <= h <= isize::MAX,
        forall|i: int| 0 <= i < rows.len() ==> #[trigger] rows[i].len() <= isize::MAX,
    ensures
        grid_entry(rows, h) matches Some(p) ==> p.dir == Dir::Left && 0 <= p.x < grid_width(rows) && 0 <= p.y
            < h,
    decreases rows.len(),
{
    if rows.len() > 0 {
        lemma_grid_entry_wf(rows.drop_last(), h);
        lemma_row_entry_wf(rows.last(), h - rows.len());
        lemma_grid_width_ge(rows.drop_last());
        lemma_chars_le_bytes(rows.last());
    }
}

proof fn lemma_grid_width_ge(rows: Seq<Seq<char>>)
    ensures
        grid_width(rows) >= 0,
    decreases rows.len(),
{
    if rows.len() > 0 {
        lemma_grid_width_ge(rows.drop_last());
    }
}

proof fn lemma_grid_width_nonneg(rows: Seq<Seq<char>>)
    requires
        forall|i: int| 0 <= i < rows.len() ==> byte_len(#[trigger] rows[i]) <= isize::MAX,
    ensures
        0 <= grid_width(rows) <= isize::MAX,
    decreases rows.len(),
{
    if rows.len() > 0 {
        lemma_grid_width_nonneg(rows.drop_last());
        assert(rows.last() == rows[rows.len() - 1]);
    }
}

/// Decoding yields a well-formed template.
pub proof fn lemma_decoded_template_wf(c: &ChunkTemplate, check_entry: bool)
    requires
        c.spec_fits(),
        check_entry ==> c.spec_has_entry(),
    ensures
        template_wf(spec_inner_template(c, check_entry)),
{
    let rows = rows_of(c.map@);
    let h = c.map.len() as int;
    assert forall|i: int| 0 <= i < rows.len() implies #[trigger] rows[i].len() <= isize::MAX by {
        assert(rows[i] == c.map@[i]@);
        lemma_chars_le_bytes(rows[i]);
    }
    assert forall|i: int| 0 <= i < rows.len() implies byte_len(#[trigger] rows[i]) <= isize::MAX by {
        assert(rows[i] == c.map@[i]@);
    }
    lemma_grid_exits_wf(rows, h);
    lemma_grid_entry_wf(rows, h);
    lemma_grid_width_nonneg(rows);
}

/// Tiles, exits, last entry and width read from a template's rows.
struct DecodedGrid {
    width: usize,
    tiles: Vec<Tile>,
    exits: Vec<Port>,
    entry: Option<Port>,
}

} // verus!

verus! {

/// A stage file: grid size, stone type and the three pools of chunks.
pub struct ChunkGrammarConfig {
    pub map_size: (isize, isize),
    pub stone_type: StoneType,
    pub start_chunks: Vec<ChunkTemplate>,
    pub middle_chunks: Vec<ChunkTemplate>,
    pub goal_chunks: Vec<ChunkTemplate>,
}

pub open spec fn all_fit(ts: Seq<ChunkTemplate>) -> bool {
    forall|i: int| 0 <= i < ts.len() ==> (#[trigger] ts[i]).spec_fits()
}

pub open spec fn all_have_entry(ts: Seq<ChunkTemplate>) -> bool {
    forall|i: int| 0 <= i < ts.len() ==> (#[trigger] ts[i]).spec_has_entry()
}

/// Every starting chunk has at least one exit.
pub open spec fn all_have_exit(ts: Seq<ChunkTemplate>) -> bool {
    forall|i: int|
        0 <= i < ts.len() ==> grid_exits(rows_of((#[trigger] ts[i]).map@), ts[i].map.len() as int).len() > 0
}

pub open spec fn template_views(ts: Seq<InnerChunkTemplate>) -> Seq<TemplateView> {
    ts.map_values(|t: InnerChunkTemplate| t@)
}

pub open spec fn decoded_all(ts: Seq<ChunkTemplate>, check_entry: bool) -> Seq<TemplateView> {
    ts.map_values(|c: ChunkTemplate| spec_inner_template(&c, check_entry))
}

impl ChunkGrammarConfig {
    /// What the generator needs of a stage file: every template fits the
    /// coordinate type, there is a start and a goal chunk, each start chunk has
    /// an exit, each middle and goal chunk an entry, and the grid size is not
    /// negative.
    pub open spec fn spec_usable(&self) -> bool {
        &&& all_fit(self.start_chunks@)
        &&& all_fit(self.middle_chunks@)
        &&& all_fit(self.goal_chunks@)
        &&& all_have_entry(self.middle_chunks@)
        &&& all_have_entry(self.goal_chunks@)
        &&& all_have_exit(self.start_chunks@)
        &&& self.start_chunks.len() > 0
        &&& self.goal_chunks.len() > 0
        &&& self.map_size.0 >= 0
        &&& self.map_size.1 >= 0
    }

    /// Checks what `spec_usable` states.
    pub fn usable(&self) -> (r: bool)
        ensures
            r == self.spec_usable(),
    {
        if self.start_chunks.len() == 0 || self.goal_chunks.len() == 0 || self.map_size.0 < 0
            || self.map_size.1 < 0 {
            return false;
        }
        let mut i: usize = 0;
        while i < self.start_chunks.len()
            invariant
                i <= self.start_chunks.len(),
                forall|k: int| 0 <= k < i ==> (#[trigger] self.start_chunks@[k]).spec_fits(),
                forall|k: int|
                    0 <= k < i ==> grid_exits(
                        rows_of((#[trigger] self.start_chunks@[k]).map@),
                        self.start_chunks@[k].map.len() as int,
                    ).len() > 0,
            decreases self.start_chunks.len() - i,
        {
            let c = &self.start_chunks[i];
            if !c.fits() {
                return false;
            }
            let g = c.decode();
            if g.exits.len() == 0 {
                return false;
            }
            i += 1;
        }
        let mut j: usize = 0;
        while j < self.middle_chunks.len()
            invariant
                j <= self.middle_chunks.len(),
                forall|k: int| 0 <= k < j ==> (#[trigger] self.middle_chunks@[k]).spec_fits(),
                forall|k: int| 0 <= k < j ==> (#[trigger] self.middle_chunks@[k]).spec_has_entry(),
            decreases self.middle_chunks.len() - j,
        {
            let c = &self.middle_chunks[j];
            if !c.fits() || !c.has_entry() {
                return false;
            }
            j += 1;
        }
        let mut k: usize = 0;
        while k < self.goal_chunks.len()
            invariant
                k <= self.goal_chunks.len(),
                forall|m: int| 0 <= m < k ==> (#[trigger] self.goal_chunks@[m]).spec_fits(),
                forall|m: int| 0 <= m < k ==> (#[trigger] self.goal_chunks@[m]).spec_has_entry(),
            decreases self.goal_chunks.len() - k,
        {
            let c = &self.goal_chunks[k];
            if !c.fits() || !c.has_entry() {
                return false;
            }
            k += 1;
        }
        true
    }

    /// The starting chunks, decoded with an entry at the origin.
    pub fn starts(&self) -> (r: Vec<InnerChunkTemplate>)
        requires
            all_fit(self.start_chunks@),
        ensures
            template_views(r@) == decoded_all(self.start_chunks@, false),
    {
        decode_all(&self.start_chunks, false)
    }

    /// The middle chunks, decoded.
    pub fn middles(&self) -> (r: Vec<InnerChunkTemplate>)
        requires
            all_fit(self.middle_chunks@),
            all_have_entry(self.middle_chunks@),
        ensures
            template_views(r@) == decoded_all(self.middle_chunks@, true),
    {
        decode_all(&self.middle_chunks, true)
    }

    /// The goal chunks, decoded.
    pub fn goals(&self) -> (r: Vec<InnerChunkTemplate>)
        requires
            all_fit(self.goal_chunks@),
            all_have_entry(self.goal_chunks@),
        ensures
            template_views(r@) == decoded_all(self.goal_chunks@, true),
    {
        decode_all(&self.goal_chunks, true)
    }
}

fn decode_all(ts: &Vec<ChunkTemplate>, check_entry: bool) -> (r: Vec<InnerChunkTemplate>)
    requires
        all_fit(ts@),
        check_entry ==> all_have_entry(ts@),
    ensures
        template_views(r@) == decoded_all(ts@, check_entry),
{
    let mut out: Vec<InnerChunkTemplate> = Vec::new();
    let mut i: usize = 0;
    while i < ts.len()
        invariant
            i <= ts.len(),
            all_fit(ts@),
            check_entry ==> all_have_entry(ts@),
            template_views(out@) == decoded_all(ts@.take(i as int), check_entry),
        decreases ts.len() - i,
    {
        let t = ts[i].to_inner_template(check_entry);
        let ghost before = out@;
        out.push(t);
        proof {
            assert(ts@.take(i + 1) =~= ts@.take(i as int).push(ts@[i as int]));
            assert(template_views(out@) =~= template_views(before).push(t@));
            assert(template_views(out@) =~= decoded_all(ts@.take(i + 1), check_entry));
        }
        i += 1;
    }
    proof {
        assert(ts@.take(ts.len() as int) =~= ts@);
    }
    out
}

} // verus!
