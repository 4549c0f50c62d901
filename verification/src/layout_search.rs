use vstd::prelude::*;
use vstd::set_lib::{lemma_int_range, lemma_len_subset, set_int_range};

use crate::chunk_grammar::{template_views, template_wf, ChunkView, Dir, InnerChunkTemplate, PlacedChunk, Port, TemplateView};
use crate::placement::{middle_step_ok, place_middle_chunk, spec_attach, spec_first_exit};
use crate::rng::shuffle_indices;
use crate::stage_map::chunk_views;

verus! {

broadcast use vstd::seq_lib::group_to_multiset_ensures;

/// Where a chain of chunks that starts at `start` ends: the right exit of its
/// last chunk, or `start` itself when it is empty.
pub open spec fn chain_end(chunks: Seq<ChunkView>, start: Port) -> Port {
    if chunks.len() == 0 {
        start
    } else {
        spec_first_exit(chunks.last().exits, Dir::Right)->0
    }
}

/// Each chunk is a middle template attached at the end of the chain before
/// it, with its origin at or right of and above the previous exit, inside
/// the map, and with a right exit below the top edge.
pub open spec fn chain_ok(
    chunks: Seq<ChunkView>,
    idx: Seq<usize>,
    mids: Seq<TemplateView>,
    start: Port,
    map_size: (isize, isize),
) -> bool
    decreases chunks.len(),
{
    if chunks.len() == 0 {
        idx.len() == 0
    } else {
        let at = chain_end(chunks.drop_last(), start);
        let t = mids[idx.last() as int];
        &&& idx.len() == chunks.len()
        &&& chain_ok(chunks.drop_last(), idx.drop_last(), mids, start, map_size)
        &&& idx.last() < mids.len()
        &&& at.x >= t.entry.x && at.y >= t.entry.y
        &&& middle_step_ok(t, at, map_size)
        &&& chunks.last() == spec_attach(t, at)
    }
}

/// The positions visited by a chain: its start, then every exit it reaches.
pub open spec fn chain_positions(chunks: Seq<ChunkView>, start: Port) -> Seq<(isize, isize)>
    decreases chunks.len(),
{
    if chunks.len() == 0 {
        seq![(start.x, start.y)]
    } else {
        let e = chain_end(chunks, start);
        chain_positions(chunks.drop_last(), start).push((e.x, e.y))
    }
}

/// Every exit reached after the start lies in the search box: not right of
/// the goal column and inside the map height.
pub open spec fn in_search_box(ps: Seq<(isize, isize)>, goal: (isize, isize), h: isize) -> bool {
    forall|i: int| 1 <= i < ps.len() ==> 0 <= #[trigger] ps[i].0 <= goal.0 && 0 <= ps[i].1 < h
}

/// A path found by the search: a chain through candidate templates that
/// never visits a position twice, never passes right of the goal column and
/// ends on the goal entry.
pub open spec fn path_ok(
    chunks: Seq<ChunkView>,
    idx: Seq<usize>,
    mids: Seq<TemplateView>,
    candidates: Seq<usize>,
    start: Port,
    goal: (isize, isize),
    map_size: (isize, isize),
) -> bool {
    &&& chain_ok(chunks, idx, mids, start, map_size)
    &&& forall|i: int| 0 <= i < idx.len() ==> candidates.contains(#[trigger] idx[i])
    &&& chain_positions(chunks, start).no_duplicates()
    &&& in_search_box(chain_positions(chunks, start), goal, map_size.1)
    &&& (chain_end(chunks, start).x, chain_end(chunks, start).y) == goal
}

/// Number of cells in the search box.
pub open spec fn box_cells(gx: int, h: int) -> int {
    if gx < 0 || h <= 0 {
        0
    } else {
        (gx + 1) * h
    }
}

pub open spec fn cell_key(p: (isize, isize), h: int) -> int {
    p.0 * h + p.1
}

proof fn lemma_key_bounds(x: int, y: int, gx: int, h: int)
    requires
        0 <= x <= gx,
        0 <= y < h,
    ensures
        0 <= x * h + y < (gx + 1) * h,
{
    assert(0 <= x * h) by (nonlinear_arith)
        requires
            0 <= x,
            0 < h,
    ;
    assert(x * h + y < (gx + 1) * h) by (nonlinear_arith)
        requires
            0 <= x <= gx,
            0 <= y < h,
    ;
}

proof fn lemma_key_injective(x1: int, y1: int, x2: int, y2: int, h: int)
    requires
        0 <= y1 < h,
        0 <= y2 < h,
        x1 * h + y1 == x2 * h + y2,
    ensures
        x1 == x2 && y1 == y2,
{
    if x1 < x2 {
        assert((x1 + 1) * h <= x2 * h) by (nonlinear_arith)
            requires
                x1 + 1 <= x2,
                0 < h,
        ;
        assert((x1 + 1) * h == x1 * h + h) by (nonlinear_arith);
    } else if x2 < x1 {
        assert((x2 + 1) * h <= x1 * h) by (nonlinear_arith)
            requires
                x2 + 1 <= x1,
                0 < h,
        ;
        assert((x2 + 1) * h == x2 * h + h) by (nonlinear_arith);
    }
}

/// Distinct cells of a box are no more than the cells of the box.
pub proof fn lemma_distinct_cells_bounded(s: Seq<(isize, isize)>, gx: int, h: int)
    requires
        s.no_duplicates(),
        forall|i: int| 0 <= i < s.len() ==> 0 <= #[trigger] s[i].0 <= gx && 0 <= s[i].1 < h,
    ensures
        s.len() <= box_cells(gx, h),
{
    if s.len() > 0 {
        assert(0 <= s[0].0 <= gx && 0 <= s[0].1 < h);
        let keys = s.map_values(|p: (isize, isize)| cell_key(p, h));
        assert forall|i: int, j: int| 0 <= i < keys.len() && 0 <= j < keys.len() && i != j implies keys[i]
            != keys[j] by {
            if keys[i] == keys[j] {
                lemma_key_injective(s[i].0 as int, s[i].1 as int, s[j].0 as int, s[j].1 as int, h);
                assert(s[i] == s[j]);
            }
        }
        assert(keys.no_duplicates());
        keys.unique_seq_to_set();
        let range = set_int_range(0, (gx + 1) * h);
        assert forall|k: int| keys.to_set().contains(k) implies range.contains(k) by {
            let i = choose|i: int| 0 <= i < keys.len() && keys[i] == k;
            lemma_key_bounds(s[i].0 as int, s[i].1 as int, gx, h);
        }
        lemma_int_range(0, (gx + 1) * h);
        lemma_len_subset(keys.to_set(), range);
    }
}

/// Whether `p` occurs in `v`.
fn contains_pos(v: &Vec<(isize, isize)>, p: (isize, isize)) -> (r: bool)
    ensures
        r == v@.contains(p),
{
    let mut i: usize = 0;
    while i < v.len()
        invariant
            i <= v.len(),
            forall|k: int| 0 <= k < i ==> v@[k] != p,
        decreases v.len() - i,
    {
        if v[i].0 == p.0 && v[i].1 == p.1 {
            return true;
        }
        i += 1;
    }
    false
}

impl PlacedChunk {
    /// An independent copy of the chunk.
    pub fn duplicate(&self) -> (r: PlacedChunk)
        ensures
            r@ == self@,
    {
        let mut exits: Vec<Port> = Vec::new();
        let mut i: usize = 0;
        while i < self.exits_world.len()
            invariant
                i <= self.exits_world.len(),
                exits@ == self.exits_world@.take(i as int),
            decreases self.exits_world.len() - i,
        {
            exits.push(self.exits_world[i]);
            proof {
                assert(self.exits_world@.take(i + 1) =~= self.exits_world@.take(i as int).push(self.exits_world@[i as int]));
            }
            i += 1;
        }
        let mut tiles = Vec::new();
        let mut j: usize = 0;
        while j < self.tiles_world.len()
            invariant
                j <= self.tiles_world.len(),
                tiles@ == self.tiles_world@.take(j as int),
            decreases self.tiles_world.len() - j,
        {
            tiles.push(self.tiles_world[j]);
            proof {
                assert(self.tiles_world@.take(j + 1) =~= self.tiles_world@.take(j as int).push(self.tiles_world@[j as int]));
            }
            j += 1;
        }
        proof {
            assert(exits@ =~= self.exits_world@);
            assert(tiles@ =~= self.tiles_world@);
        }
        PlacedChunk { id: self.id.clone(), exits_world: exits, tiles_world: tiles }
    }
}

/// Independent copies of the chunks.
pub fn duplicate_chunks(v: &Vec<PlacedChunk>) -> (r: Vec<PlacedChunk>)
    ensures
        chunk_views(r@) == chunk_views(v@),
{
    let mut out: Vec<PlacedChunk> = Vec::new();
    let mut i: usize = 0;
    while i < v.len()
        invariant
            i <= v.len(),
            chunk_views(out@) == chunk_views(v@.take(i as int)),
        decreases v.len() - i,
    {
        let c = v[i].duplicate();
        let ghost before = out@;
        out.push(c);
        proof {
            assert(v@.take(i + 1) =~= v@.take(i as int).push(v@[i as int]));
            assert(chunk_views(out@) =~= chunk_views(before).push(c@));
            assert(chunk_views(v@.take(i + 1)) =~= chunk_views(v@.take(i as int)).push(v@[i as int]@));
        }
        i += 1;
    }
    proof {
        assert(v@.take(v.len() as int) =~= v@);
    }
    out
}

/// Copies a vector of indices.
pub fn copy_indices(v: &Vec<usize>) -> (r: Vec<usize>)
    ensures
        r@ == v@,
{
    let mut out: Vec<usize> = Vec::new();
    let mut i: usize = 0;
    while i < v.len()
        invariant
            i <= v.len(),
            out@ == v@.take(i as int),
        decreases v.len() - i,
    {
        out.push(v[i]);
        proof {
            assert(v@.take(i + 1) =~= v@.take(i as int).push(v@[i as int]));
        }
        i += 1;
    }
    proof {
        assert(v@.take(v.len() as int) =~= v@);
    }
    out
}

pub open spec fn mids_wf(mids: Seq<TemplateView>) -> bool {
    forall|i: int| 0 <= i < mids.len() ==> template_wf(#[trigger] mids[i])
}

pub open spec fn indices_below(v: Seq<usize>, n: int) -> bool {
    forall|i: int| 0 <= i < v.len() ==> #[trigger] v[i] < n
}

proof fn lemma_chain_positions_len(chunks: Seq<ChunkView>, start: Port)
    ensures
        chain_positions(chunks, start).len() == chunks.len() + 1,
        chain_positions(chunks, start)[0] == (start.x, start.y),
    decreases chunks.len(),
{
    if chunks.len() > 0 {
        lemma_chain_positions_len(chunks.drop_last(), start);
    }
}

/// Whether the chain `chunks` (with templates `idx`) begins with the chain
/// `pre_c` (with templates `pre_i`).
pub open spec fn extends_chain(chunks: Seq<ChunkView>, idx: Seq<usize>, pre_c: Seq<ChunkView>, pre_i: Seq<usize>) -> bool {
    &&& pre_c.len() <= chunks.len()
    &&& pre_i.len() == pre_c.len()
    &&& chunks.take(pre_c.len() as int) == pre_c
    &&& idx.take(pre_i.len() as int) == pre_i
}

/// Whether no path the search accepts begins with the chain `pre_c`.
pub open spec fn no_path_from(
    pre_c: Seq<ChunkView>,
    pre_i: Seq<usize>,
    mids: Seq<TemplateView>,
    candidates: Seq<usize>,
    start: Port,
    goal: (isize, isize),
    map_size: (isize, isize),
) -> bool {
    forall|chunks: Seq<ChunkView>, idx: Seq<usize>|
        #![trigger path_ok(chunks, idx, mids, candidates, start, goal, map_size), extends_chain(chunks, idx, pre_c, pre_i)]
        path_ok(chunks, idx, mids, candidates, start, goal, map_size) ==> !extends_chain(chunks, idx, pre_c, pre_i)
}

/// A list of template indices builds at most one chain from a given start.
pub(crate) proof fn lemma_chain_unique(
    a: Seq<ChunkView>,
    b: Seq<ChunkView>,
    idx: Seq<usize>,
    mids: Seq<TemplateView>,
    start: Port,
    map_size: (isize, isize),
)
    requires
        chain_ok(a, idx, mids, start, map_size),
        chain_ok(b, idx, mids, start, map_size),
    ensures
        a == b,
    decreases a.len(),
{
    if a.len() == 0 {
        assert(b.len() == 0);
        assert(a =~= b);
    } else {
        assert(b.len() == idx.len());
        lemma_chain_unique(a.drop_last(), b.drop_last(), idx.drop_last(), mids, start, map_size);
        assert(a.last() == b.last());
        assert(a =~= a.drop_last().push(a.last()));
        assert(b =~= b.drop_last().push(b.last()));
    }
}

/// The last chunk of a non-empty chain has a right exit.
pub(crate) proof fn lemma_chain_last_exit(
    chunks: Seq<ChunkView>,
    idx: Seq<usize>,
    mids: Seq<TemplateView>,
    start: Port,
    map_size: (isize, isize),
)
    requires
        chain_ok(chunks, idx, mids, start, map_size),
        chunks.len() > 0,
    ensures
        spec_first_exit(chunks.last().exits, Dir::Right) is Some,
{
}

pub(crate) proof fn lemma_chain_prefix(
    chunks: Seq<ChunkView>,
    idx: Seq<usize>,
    mids: Seq<TemplateView>,
    start: Port,
    map_size: (isize, isize),
    n: int,
)
    requires
        chain_ok(chunks, idx, mids, start, map_size),
        0 <= n <= chunks.len(),
    ensures
        idx.len() == chunks.len(),
        chain_ok(chunks.take(n), idx.take(n), mids, start, map_size),
        n < chunks.len() ==> {
            let at = chain_end(chunks.take(n), start);
            let t = mids[idx[n] as int];
            &&& idx[n] < mids.len()
            &&& at.x >= t.entry.x && at.y >= t.entry.y
            &&& middle_step_ok(t, at, map_size)
            &&& chunks[n] == spec_attach(t, at)
        },
    decreases chunks.len(),
{
    if chunks.len() == 0 {
        assert(chunks.take(n) =~= chunks);
        assert(idx.take(n) =~= idx);
    } else if n == chunks.len() {
        assert(chunks.take(n) =~= chunks);
        assert(idx.take(n) =~= idx);
    } else {
        let c0 = chunks.drop_last();
        let i0 = idx.drop_last();
        lemma_chain_prefix(c0, i0, mids, start, map_size, n);
        assert(c0.take(n) =~= chunks.take(n));
        assert(i0.take(n) =~= idx.take(n));
        if n == chunks.len() - 1 {
            assert(chunks.take(n) =~= c0);
            assert(chunks[n] == chunks.last());
            assert(idx[n] == idx.last());
        } else {
            assert(c0[n] == chunks[n]);
            assert(i0[n] == idx[n]);
        }
    }
}

proof fn lemma_positions_prefix(chunks: Seq<ChunkView>, start: Port, n: int)
    requires
        0 <= n <= chunks.len(),
    ensures
        chain_positions(chunks.take(n), start) == chain_positions(chunks, start).take(n + 1),
    decreases chunks.len(),
{
    lemma_chain_positions_len(chunks, start);
    if n == chunks.len() {
        assert(chunks.take(n) =~= chunks);
        assert(chain_positions(chunks, start).take(n + 1) =~= chain_positions(chunks, start));
    } else {
        let c0 = chunks.drop_last();
        lemma_positions_prefix(c0, start, n);
        lemma_chain_positions_len(c0, start);
        assert(c0.take(n) =~= chunks.take(n));
        assert(chain_positions(chunks, start).take(n + 1) =~= chain_positions(c0, start).take(n + 1));
    }
}

/// What a path that continues the chain `pre` with one more chunk tells
/// about that chunk: how it is attached, and where its exit lies among the
/// path's positions.
proof fn lemma_next_step(
    chunks: Seq<ChunkView>,
    idx: Seq<usize>,
    mids: Seq<TemplateView>,
    candidates: Seq<usize>,
    start: Port,
    goal: (isize, isize),
    map_size: (isize, isize),
    pre: Seq<ChunkView>,
)
    requires
        path_ok(chunks, idx, mids, candidates, start, goal, map_size),
        pre.len() < chunks.len(),
        chunks.take(pre.len() as int) == pre,
    ensures
        ({
            let n = pre.len() as int;
            let at = chain_end(pre, start);
            let t = mids[idx[n] as int];
            let placed = spec_attach(t, at);
            let next = spec_first_exit(placed.exits, Dir::Right)->0;
            &&& idx[n] < mids.len()
            &&& candidates.contains(idx[n])
            &&& at.x >= t.entry.x && at.y >= t.entry.y
            &&& middle_step_ok(t, at, map_size)
            &&& chunks[n] == placed
            &&& chunks.take(n + 1) == pre.push(placed)
            &&& next.x <= goal.0
            &&& !chain_positions(pre, start).contains((next.x, next.y))
        }),
{
    let n = pre.len() as int;
    lemma_chain_prefix(chunks, idx, mids, start, map_size, n);
    let at = chain_end(pre, start);
    let t = mids[idx[n] as int];
    let placed = spec_attach(t, at);
    let next = spec_first_exit(placed.exits, Dir::Right)->0;
    assert(chunks.take(n + 1) =~= pre.push(placed));
    lemma_positions_prefix(chunks, start, n);
    lemma_positions_prefix(chunks, start, n + 1);
    lemma_chain_positions_len(chunks, start);
    let ps = chain_positions(chunks, start);
    let pre1 = chunks.take(n + 1);
    assert(pre1.drop_last() =~= pre);
    assert(chain_end(pre1, start) == next);
    assert(chain_positions(pre1, start) == chain_positions(pre, start).push((next.x, next.y)));
    assert(ps[n + 1] == (next.x, next.y)) by {
        assert(chain_positions(pre1, start)[n + 1] == ps.take(n + 2)[n + 1]);
    }
    assert(1 <= n + 1 < ps.len());
    assert(ps[n + 1].0 <= goal.0);
    assert(next.x <= goal.0);
    if chain_positions(pre, start).contains((next.x, next.y)) {
        let j = choose|j: int| 0 <= j < chain_positions(pre, start).len() && chain_positions(pre, start)[j] == (next.x, next.y);
        assert(ps.take(n + 1)[j] == ps[j]);
        assert(ps[j] == ps[n + 1]);
    }
    assert(candidates.contains(idx[n]));
}

/// Whether trying template `ti` next after the chain `pre` cannot lead to a
/// path: it does not fit there, its exit lies right of the goal column or on
/// a position already visited, or no path continues through it.
pub open spec fn candidate_fails(
    ti: usize,
    pre_c: Seq<ChunkView>,
    pre_i: Seq<usize>,
    mids: Seq<TemplateView>,
    candidates: Seq<usize>,
    start: Port,
    goal: (isize, isize),
    map_size: (isize, isize),
) -> bool {
    let at = chain_end(pre_c, start);
    let t = mids[ti as int];
    let placed = spec_attach(t, at);
    let next = spec_first_exit(placed.exits, Dir::Right)->0;
    ||| !(at.x >= t.entry.x && at.y >= t.entry.y)
    ||| !middle_step_ok(t, at, map_size)
    ||| next.x > goal.0
    ||| chain_positions(pre_c, start).contains((next.x, next.y))
    ||| no_path_from(pre_c.push(placed), pre_i.push(ti), mids, candidates, start, goal, map_size)
}

proof fn lemma_failed_candidate_unused(
    ti: usize,
    chunks: Seq<ChunkView>,
    idx: Seq<usize>,
    pre_c: Seq<ChunkView>,
    pre_i: Seq<usize>,
    mids: Seq<TemplateView>,
    candidates: Seq<usize>,
    start: Port,
    goal: (isize, isize),
    map_size: (isize, isize),
)
    requires
        candidate_fails(ti, pre_c, pre_i, mids, candidates, start, goal, map_size),
        path_ok(chunks, idx, mids, candidates, start, goal, map_size),
        extends_chain(chunks, idx, pre_c, pre_i),
        (chain_end(pre_c, start).x, chain_end(pre_c, start).y) != goal,
    ensures
        pre_c.len() < chunks.len(),
        idx[pre_c.len() as int] != ti,
{
    let n = pre_c.len() as int;
    if chunks.len() == n {
        assert(chunks.take(n) =~= chunks);
    }
    lemma_next_step(chunks, idx, mids, candidates, start, goal, map_size, pre_c);
    lemma_chain_prefix(chunks, idx, mids, start, map_size, n);
    if idx[n] == ti {
        let at = chain_end(pre_c, start);
        let placed = spec_attach(mids[ti as int], at);
        assert(idx.take(n + 1) =~= pre_i.push(ti)) by {
            assert(idx.take(n) == pre_i);
        }
        assert(extends_chain(chunks, idx, pre_c.push(placed), pre_i.push(ti)));
    }
}

/// Depth-first search for a chain of candidate templates from `current_exit`
/// to `goal_entry`, trying candidates in a random order at each step and never
/// revisiting a position. `path`, `chosen` and `visited` hold the chain built
/// so far; they are restored when no chain is found.
fn search_path_to_goal(
    rng: &mut rand::rngs::ThreadRng,
    map_size: (isize, isize),
    mids: &Vec<InnerChunkTemplate>,
    candidates: &Vec<usize>,
    current_exit: Port,
    goal_entry: (isize, isize),
    path: &mut Vec<PlacedChunk>,
    chosen: &mut Vec<usize>,
    visited: &mut Vec<(isize, isize)>,
    Ghost(start): Ghost<Port>,
) -> (r: Option<(Vec<PlacedChunk>, Vec<usize>)>)
    requires
        mids_wf(template_views(mids@)),
        indices_below(candidates@, mids.len() as int),
        current_exit.dir == Dir::Right,
        start.dir == Dir::Right,
        chain_ok(chunk_views(old(path)@), old(chosen)@, template_views(mids@), start, map_size),
        forall|i: int| 0 <= i < old(chosen)@.len() ==> candidates@.contains(#[trigger] old(chosen)@[i]),
        current_exit == chain_end(chunk_views(old(path)@), start),
        old(visited)@ == chain_positions(chunk_views(old(path)@), start),
        old(visited)@.no_duplicates(),
        in_search_box(old(visited)@, goal_entry, map_size.1),
    ensures
        r is None ==> final(path)@ == old(path)@ && final(chosen)@ == old(chosen)@ && final(visited)@
            == old(visited)@,
        r is None ==> current_exit.x > goal_entry.0 || no_path_from(
            chunk_views(old(path)@),
            old(chosen)@,
            template_views(mids@),
            candidates@,
            start,
            goal_entry,
            map_size,
        ),
        r matches Some(found) ==> path_ok(
            chunk_views(found.0@),
            found.1@,
            template_views(mids@),
            candidates@,
            start,
            goal_entry,
            map_size,
        ),
    decreases box_cells(goal_entry.0 as int, map_size.1 as int) - (old(visited)@.len() - 1),
{
    let ghost mviews = template_views(mids@);
    proof {
        lemma_chain_positions_len(chunk_views(path@), start);
        lemma_distinct_cells_bounded(visited@.drop_first(), goal_entry.0 as int, map_size.1 as int);
        assert(visited@.drop_first().no_duplicates());
    }
    if current_exit.x == goal_entry.0 && current_exit.y == goal_entry.1 {
        let p = duplicate_chunks(path);
        let c = copy_indices(chosen);
        return Some((p, c));
    }
    if current_exit.x > goal_entry.0 {
        return None;
    }
    let mut shuffled = copy_indices(candidates);
    shuffle_indices(rng, &mut shuffled);
    let ghost path0 = path@;
    let ghost chosen0 = chosen@;
    let ghost visited0 = visited@;
    let mut k: usize = 0;
    while k < shuffled.len()
        invariant
            k <= shuffled.len(),
            mviews == template_views(mids@),
            mids_wf(mviews),
            indices_below(candidates@, mids.len() as int),
            shuffled@.to_multiset() == candidates@.to_multiset(),
            current_exit.dir == Dir::Right,
            start.dir == Dir::Right,
            current_exit.x <= goal_entry.0,
            path@ == path0,
            chosen@ == chosen0,
            visited@ == visited0,
            visited0 == old(visited)@,
            chain_ok(chunk_views(path0), chosen0, mviews, start, map_size),
            forall|i: int| 0 <= i < chosen0.len() ==> candidates@.contains(#[trigger] chosen0[i]),
            current_exit == chain_end(chunk_views(path0), start),
            visited0 == chain_positions(chunk_views(path0), start),
            visited0.no_duplicates(),
            in_search_box(visited0, goal_entry, map_size.1),
            visited0.len() == path0.len() + 1,
            visited0.len() - 1 <= box_cells(goal_entry.0 as int, map_size.1 as int),
            !(current_exit.x == goal_entry.0 && current_exit.y == goal_entry.1),
            forall|j: int|
                0 <= j < k ==> candidate_fails(
                    #[trigger] shuffled@[j],
                    chunk_views(path0),
                    chosen0,
                    mviews,
                    candidates@,
                    start,
                    goal_entry,
                    map_size,
                ),
        decreases shuffled.len() - k,
    {
        let ti = shuffled[k];
        proof {
            assert(shuffled@.contains(ti));
            assert(shuffled@.to_multiset().count(ti) > 0);
            assert(candidates@.contains(ti));
            let j = choose|j: int| 0 <= j < candidates@.len() && candidates@[j] == ti;
            assert(ti < mids.len());
        }
        let template = &mids[ti];
        proof {
            assert(mviews[ti as int] == template@);
            assert(template_wf(template@));
        }
        k += 1;
        let ghost fails = candidate_fails(ti, chunk_views(path0), chosen0, mviews, candidates@, start, goal_entry, map_size);
        if current_exit.x < template.entry.x || current_exit.y < template.entry.y {
            assert(fails);
            continue;
        }
        let placed = place_middle_chunk(template, current_exit, map_size);
        if placed.is_none() {
            assert(fails);
            continue;
        }
        let (placed, next_exit) = placed.unwrap();
        if next_exit.x > goal_entry.0 {
            assert(fails);
            continue;
        }
        let next_pos = (next_exit.x, next_exit.y);
        if contains_pos(visited, next_pos) {
            assert(fails);
            continue;
        }
        let ghost pv0 = chunk_views(path0);
        let ghost placed_view = placed@;
        visited.push(next_pos);
        path.push(placed);
        chosen.push(ti);
        proof {
            let pv = chunk_views(path@);
            assert(pv =~= pv0.push(placed_view));
            assert(pv.drop_last() =~= pv0);
            assert(chosen@.drop_last() =~= chosen0);
            // the new exit is non-negative: the origin is, and so are the template's exits
            let o = (current_exit.x - template.entry.x, current_exit.y - template.entry.y);
            let fe = spec_first_exit(spec_attach(template@, current_exit).exits, Dir::Right);
            lemma_first_exit_shifted_nonneg(template@.exits, o.0, o.1);
            assert(chain_end(pv, start) == next_exit);
            assert(chain_ok(pv, chosen@, mviews, start, map_size));
            assert(visited@ == chain_positions(pv, start));
            assert(visited@.no_duplicates()) by {
                assert forall|a: int, b: int| 0 <= a < visited@.len() && 0 <= b < visited@.len() && a != b
                    implies visited@[a] != visited@[b] by {
                    if a == visited@.len() - 1 {
                        assert(visited0.contains(visited0[b]));
                    } else if b == visited@.len() - 1 {
                        assert(visited0.contains(visited0[a]));
                    }
                }
            }
            assert(in_search_box(visited@, goal_entry, map_size.1));
            assert forall|i: int| 0 <= i < chosen@.len() implies candidates@.contains(#[trigger] chosen@[i]) by {
                if i < chosen0.len() {
                    assert(chosen@[i] == chosen0[i]);
                }
            }
            lemma_distinct_cells_bounded(visited@.drop_first(), goal_entry.0 as int, map_size.1 as int);
            assert(visited@.drop_first().no_duplicates());
            assert(visited@.len() - 1 <= box_cells(goal_entry.0 as int, map_size.1 as int));
        }
        let found = search_path_to_goal(
            rng,
            map_size,
            mids,
            candidates,
            next_exit,
            goal_entry,
            path,
            chosen,
            visited,
            Ghost(start),
        );
        if found.is_some() {
            return found;
        }
        proof {
            assert(chunk_views(path@) == pv0.push(placed_view));
            assert(fails);
        }
        path.pop();
        chosen.pop();
        visited.pop();
        proof {
            assert(path@ =~= path0);
            assert(chosen@ =~= chosen0);
            assert(visited@ =~= visited0);
        }
    }
    proof {
        let pv0 = chunk_views(path0);
        assert forall|chunks: Seq<ChunkView>, idx: Seq<usize>|
            path_ok(chunks, idx, mviews, candidates@, start, goal_entry, map_size) implies !extends_chain(
            chunks,
            idx,
            pv0,
            chosen0,
        ) by {
            if extends_chain(chunks, idx, pv0, chosen0) {
                let n = pv0.len() as int;
                if chunks.len() == n {
                    assert(chunks.take(n) =~= chunks);
                }
                lemma_next_step(chunks, idx, mviews, candidates@, start, goal_entry, map_size, pv0);
                let ti = idx[n];
                assert(candidates@.to_multiset().count(ti) > 0);
                assert(shuffled@.to_multiset().count(ti) > 0);
                assert(shuffled@.contains(ti));
                let j = choose|j: int| 0 <= j < shuffled@.len() && shuffled@[j] == ti;
                assert(candidate_fails(shuffled@[j], pv0, chosen0, mviews, candidates@, start, goal_entry, map_size));
                lemma_failed_candidate_unused(ti, chunks, idx, pv0, chosen0, mviews, candidates@, start, goal_entry, map_size);
            }
        }
    }
    None
}

/// The first right exit of a template moved by a non-negative offset has
/// non-negative coordinates.
proof fn lemma_first_exit_shifted_nonneg(exits: Seq<Port>, dx: int, dy: int)
    requires
        dx >= 0,
        dy >= 0,
        forall|i: int| 0 <= i < exits.len() ==> 0 <= (#[trigger] exits[i]).x && 0 <= exits[i].y,
        forall|i: int| 0 <= i < exits.len() ==> (#[trigger] exits[i]).x + dx <= isize::MAX && exits[i].y + dy
            <= isize::MAX,
    ensures
        spec_first_exit(crate::placement::shift_ports_seq(exits, dx, dy), Dir::Right) matches Some(e) ==> 0
            <= e.x && 0 <= e.y,
    decreases exits.len(),
{
    let s = crate::placement::shift_ports_seq(exits, dx, dy);
    if exits.len() > 0 {
        assert(s.drop_first() =~= crate::placement::shift_ports_seq(exits.drop_first(), dx, dy));
        lemma_first_exit_shifted_nonneg(exits.drop_first(), dx, dy);
    }
}

/// Whether no path the search accepts leads from `start` to `goal`.
#[verifier::opaque]
pub open spec fn no_path(
    mids: Seq<TemplateView>,
    candidates: Seq<usize>,
    start: Port,
    goal: (isize, isize),
    map_size: (isize, isize),
) -> bool {
    forall|chunks: Seq<ChunkView>, idx: Seq<usize>|
        !#[trigger] path_ok(chunks, idx, mids, candidates, start, goal, map_size)
}

/// Searches for a chain of optional templates leading from `start_exit` to
/// `goal_entry`. The order in which templates are tried is random, but the
/// search is exhaustive: when the start is not right of the goal column, it
/// finds a chain whenever one exists.
pub fn find_path_to_goal(
    rng: &mut rand::rngs::ThreadRng,
    map_size: (isize, isize),
    mids: &Vec<InnerChunkTemplate>,
    candidates: &Vec<usize>,
    start_exit: Port,
    goal_entry: (isize, isize),
) -> (r: Option<(Vec<PlacedChunk>, Vec<usize>)>)
    requires
        mids_wf(template_views(mids@)),
        indices_below(candidates@, mids.len() as int),
        start_exit.dir == Dir::Right,
    ensures
        r matches Some(found) ==> path_ok(
            chunk_views(found.0@),
            found.1@,
            template_views(mids@),
            candidates@,
            start_exit,
            goal_entry,
            map_size,
        ),
        r is None && start_exit.x <= goal_entry.0 ==> no_path(
            template_views(mids@),
            candidates@,
            start_exit,
            goal_entry,
            map_size,
        ),
{
    let mut path: Vec<PlacedChunk> = Vec::new();
    let mut chosen: Vec<usize> = Vec::new();
    let mut visited: Vec<(isize, isize)> = Vec::new();
    visited.push((start_exit.x, start_exit.y));
    proof {
        assert(chunk_views(path@) =~= Seq::<ChunkView>::empty());
        assert(visited@ =~= chain_positions(chunk_views(path@), start_exit));
    }
    let r = search_path_to_goal(
        rng,
        map_size,
        mids,
        candidates,
        start_exit,
        goal_entry,
        &mut path,
        &mut chosen,
        &mut visited,
        Ghost(start_exit),
    );
    proof {
        reveal(no_path);
        if r is None && start_exit.x <= goal_entry.0 {
            assert forall|chunks: Seq<ChunkView>, idx: Seq<usize>|
                !#[trigger] path_ok(chunks, idx, template_views(mids@), candidates@, start_exit, goal_entry, map_size) by {
                if path_ok(chunks, idx, template_views(mids@), candidates@, start_exit, goal_entry, map_size) {
                    assert(chunks.take(0) =~= Seq::<ChunkView>::empty());
                    assert(idx.take(0) =~= Seq::<usize>::empty());
                    assert(extends_chain(chunks, idx, Seq::<ChunkView>::empty(), Seq::<usize>::empty()));
                }
            }
        }
    }
    r
}

} // verus!
