use vstd::prelude::*;

use crate::chunk_grammar::{decoded_all, lemma_decoded_template_wf, grid_exits, rows_of, spec_inner_template, template_views, template_wf, ChunkGrammarConfig, ChunkTemplate, ChunkView, Dir, InnerChunkTemplate, PlacedChunk, Port, TemplateView, MAP_SIZE};
use crate::layout_search::{
    chain_end, chain_ok, copy_indices, find_path_to_goal, indices_below, lemma_chain_last_exit,
    lemma_chain_prefix, lemma_chain_unique, mids_wf, no_path, path_ok,
};
use crate::placement::{
    in_isize, middle_step_ok, pick_exit_dir, place_chunk, place_fits, place_middle_chunk, shift_ports_seq, shift_tiles_seq,
    spec_first_exit, spec_place,
};
use crate::goal_layout::{adjust_goal_layout, spec_adjust_goal};
use crate::rng::{random_below, shuffle_indices, thread_rng};
use crate::stage_map::{chunk_views, chunks_shift_fit, shift_chunks_seq, spec_margin_tiles, PlacedChunkLayout, StageMap};

verus! {

broadcast use vstd::seq_lib::group_to_multiset_ensures;

/// Where the goal chunk goes: its origin and the world position of its entry.
pub struct GoalTarget {
    pub origin: (isize, isize),
    pub entry: (isize, isize),
}

/// The goal chunk can be put flush against the right edge with its entry not
/// left of `start`.
pub open spec fn goal_target_possible(map_size: (isize, isize), start: (isize, isize), t: TemplateView) -> bool {
    let max_ox = map_size.0 - t.size.0;
    let max_oy = map_size.1 - t.size.1;
    let min_ox = start.0 - t.entry.x;
    &&& in_isize(max_ox)
    &&& in_isize(max_oy)
    &&& in_isize(min_ox)
    &&& min_ox <= max_ox
    &&& max_ox + t.entry.x >= start.0
}

/// A goal placement: flush right, at a height from 0 up to the highest that
/// still fits (0 when the chunk is as tall as the map or taller), and with
/// the entry where the origin puts it.
pub open spec fn goal_target_ok(g: GoalTarget, map_size: (isize, isize), start: (isize, isize), t: TemplateView) -> bool {
    let max_oy = map_size.1 - t.size.1;
    &&& goal_target_possible(map_size, start, t)
    &&& g.origin.0 == map_size.0 - t.size.0
    &&& (if max_oy <= 0 {
        g.origin.1 == 0
    } else {
        0 <= g.origin.1 <= max_oy
    })
    &&& g.entry.0 == g.origin.0 + t.entry.x
    &&& g.entry.1 == g.origin.1 + t.entry.y
}

/// Picks where the goal chunk goes: flush against the right edge, at a
/// random height. Gives `None` when it cannot be put right of `start_exit`.
pub fn random_goal_target(
    rng: &mut rand::rngs::ThreadRng,
    map_size: (isize, isize),
    start_exit: Port,
    goal_template: &InnerChunkTemplate,
) -> (r: Option<GoalTarget>)
    requires
        template_wf(goal_template@),
        map_size.1 >= 0,
    ensures
        r is Some <==> goal_target_possible(map_size, (start_exit.x, start_exit.y), goal_template@),
        r matches Some(g) ==> goal_target_ok(g, map_size, (start_exit.x, start_exit.y), goal_template@),
{
    let start_x = start_exit.x;
    let max_origin_x = map_size.0.checked_sub(goal_template.size.0);
    let max_origin_y = map_size.1.checked_sub(goal_template.size.1);
    let min_origin_x = start_x.checked_sub(goal_template.entry.x);
    if max_origin_x.is_none() || max_origin_y.is_none() || min_origin_x.is_none() {
        return None;
    }
    let max_origin_x = max_origin_x.unwrap();
    let max_origin_y = max_origin_y.unwrap();
    let min_origin_x = min_origin_x.unwrap();
    if min_origin_x > max_origin_x {
        return None;
    }
    let origin_x = max_origin_x;
    let origin_y: isize = if max_origin_y <= 0 {
        0
    } else {
        random_below(rng, max_origin_y as usize + 1) as isize
    };
    let entry = (origin_x + goal_template.entry.x, origin_y + goal_template.entry.y);
    if entry.0 < start_x {
        return None;
    }
    Some(GoalTarget { origin: (origin_x, origin_y), entry })
}

/// `n` copies of the index `i`.
pub open spec fn repeat_index(i: usize, n: nat) -> Seq<usize> {
    Seq::new(n, |_k: int| i)
}

/// Every middle template with a positive required count, repeated that many
/// times, in template order.
pub open spec fn required_list(mids: Seq<TemplateView>) -> Seq<usize>
    decreases mids.len(),
{
    if mids.len() == 0 {
        Seq::empty()
    } else {
        required_list(mids.drop_last()) + repeat_index((mids.len() - 1) as usize, mids.last().required_count as nat)
    }
}

/// The middle templates without a required count, in template order.
pub open spec fn optional_list(mids: Seq<TemplateView>) -> Seq<usize>
    decreases mids.len(),
{
    if mids.len() == 0 {
        Seq::empty()
    } else if mids.last().required_count == 0 {
        optional_list(mids.drop_last()).push((mids.len() - 1) as usize)
    } else {
        optional_list(mids.drop_last())
    }
}

proof fn lemma_lists_below(mids: Seq<TemplateView>)
    ensures
        indices_below(required_list(mids), mids.len() as int),
        indices_below(optional_list(mids), mids.len() as int),
    decreases mids.len(),
{
    if mids.len() > 0 {
        lemma_lists_below(mids.drop_last());
        let a = required_list(mids.drop_last());
        let b = repeat_index((mids.len() - 1) as usize, mids.last().required_count as nat);
        assert forall|i: int| 0 <= i < required_list(mids).len() implies #[trigger] required_list(mids)[i]
            < mids.len() by {
            if i < a.len() {
                assert(required_list(mids)[i] == a[i]);
            } else {
                assert(required_list(mids)[i] == b[i - a.len()]);
            }
        }
    }
}

/// Splits the middle templates into the required ones (each repeated by its
/// count) and the optional ones.
fn split_required(mids: &Vec<InnerChunkTemplate>) -> (r: (Vec<usize>, Vec<usize>))
    ensures
        r.0@ == required_list(template_views(mids@)),
        r.1@ == optional_list(template_views(mids@)),
{
    let ghost views = template_views(mids@);
    let mut required: Vec<usize> = Vec::new();
    let mut optional: Vec<usize> = Vec::new();
    let mut i: usize = 0;
    while i < mids.len()
        invariant
            i <= mids.len(),
            views == template_views(mids@),
            required@ == required_list(views.take(i as int)),
            optional@ == optional_list(views.take(i as int)),
        decreases mids.len() - i,
    {
        let count = mids[i].required_count;
        proof {
            assert(views.take(i + 1).drop_last() =~= views.take(i as int));
            assert(views.take(i + 1).last() == mids@[i as int]@);
        }
        if count > 0 {
            let ghost before = required@;
            let mut c: usize = 0;
            while c < count
                invariant
                    c <= count,
                    required@ == before + repeat_index(i, c as nat),
                decreases count - c,
            {
                required.push(i);
                proof {
                    assert(required@ =~= before + repeat_index(i, (c + 1) as nat));
                }
                c += 1;
            }
        } else {
            optional.push(i);
        }
        proof {
            assert(required@ =~= required_list(views.take(i + 1)));
        }
        i += 1;
    }
    proof {
        assert(views.take(mids.len() as int) =~= views);
    }
    (required, optional)
}

/// What a generated layout is, before it is moved into the framed grid: a
/// start chunk at the origin, the required middle chunks in some order, a
/// search path through optional middle chunks, and a goal chunk whose entry
/// meets the last exit.
pub open spec fn layout_witness(
    chunks: Seq<ChunkView>,
    starts: Seq<TemplateView>,
    mids: Seq<TemplateView>,
    goals: Seq<TemplateView>,
    map_size: (isize, isize),
    s: int,
    req: Seq<usize>,
    opt: Seq<usize>,
    g: int,
    target: GoalTarget,
) -> bool {
    let start_chunk = spec_place(starts[s], 0, 0);
    let start_exit = spec_first_exit(start_chunk.exits, Dir::Right)->0;
    let m = req.len() as int;
    let n = opt.len() as int;
    let mandatory = chunks.subrange(1, m + 1);
    let mid_start = chain_end(mandatory, start_exit);
    let optional_part = chunks.subrange(m + 1, m + 1 + n);
    &&& 0 <= s < starts.len()
    &&& 0 <= g < goals.len()
    &&& chunks.len() == m + n + 2
    &&& chunks[0] == start_chunk
    &&& spec_first_exit(start_chunk.exits, Dir::Right) is Some
    &&& chain_ok(mandatory, req, mids, start_exit, map_size)
    &&& req.to_multiset() == required_list(mids).to_multiset()
    &&& path_ok(optional_part, opt, mids, optional_list(mids), mid_start, target.entry, map_size)
    &&& goal_target_ok(target, map_size, (mid_start.x, mid_start.y), goals[g])
    &&& chunks[m + n + 1] == spec_place(goals[g], target.origin.0 as int, target.origin.1 as int)
}

pub open spec fn raw_layout_ok(
    chunks: Seq<ChunkView>,
    starts: Seq<TemplateView>,
    mids: Seq<TemplateView>,
    goals: Seq<TemplateView>,
    map_size: (isize, isize),
) -> bool {
    exists|s: int, req: Seq<usize>, opt: Seq<usize>, g: int, target: GoalTarget|
        #[trigger] layout_witness(chunks, starts, mids, goals, map_size, s, req, opt, g, target)
}

/// Half the spare room around the playable area, rounded toward zero as
/// integer division does.
pub open spec fn spec_half_toward_zero(d: int) -> int {
    if d >= 0 {
        d / 2
    } else {
        -((-d) / 2)
    }
}

pub open spec fn spec_boundary_margin(map_size: (isize, isize)) -> (isize, isize) {
    (
        spec_half_toward_zero(MAP_SIZE.0 - map_size.0) as isize,
        spec_half_toward_zero(MAP_SIZE.1 - map_size.1) as isize,
    )
}

/// Width of the wall frame around a playable area of size `map_size`.
pub fn boundary_margin(map_size: (isize, isize)) -> (r: (isize, isize))
    requires
        map_size.0 >= 0,
        map_size.1 >= 0,
    ensures
        r == spec_boundary_margin(map_size),
        in_isize(MAP_SIZE.0 - r.0),
        in_isize(MAP_SIZE.1 - r.1),
{
    let dx = MAP_SIZE.0 - map_size.0;
    let dy = MAP_SIZE.1 - map_size.1;
    let mx = if dx >= 0 {
        dx / 2
    } else {
        -((-dx) / 2)
    };
    let my = if dy >= 0 {
        dy / 2
    } else {
        -((-dy) / 2)
    };
    (mx, my)
}

proof fn lemma_place_at_origin(t: TemplateView)
    ensures
        place_fits(t, 0, 0),
        spec_place(t, 0, 0).exits == t.exits,
        spec_place(t, 0, 0).tiles == t.tiles,
{
    assert(shift_ports_seq(t.exits, 0, 0) =~= t.exits);
    assert(shift_tiles_seq(t.tiles, 0, 0) =~= t.tiles);
}

/// Everything the generator needs of its templates.
pub open spec fn templates_ready(
    starts: Seq<TemplateView>,
    mids: Seq<TemplateView>,
    goals: Seq<TemplateView>,
) -> bool {
    &&& starts.len() > 0
    &&& goals.len() > 0
    &&& forall|i: int| 0 <= i < starts.len() ==> spec_first_exit((#[trigger] starts[i]).exits, Dir::Right) is Some
    &&& mids_wf(mids)
    &&& forall|i: int| 0 <= i < goals.len() ==> template_wf(#[trigger] goals[i])
}

/// The right exit of a start template laid at the origin.
pub open spec fn start_exit_of(t: TemplateView) -> Port {
    spec_first_exit(spec_place(t, 0, 0).exits, Dir::Right)->0
}

/// The whole layout, before it is moved into the framed grid, fits the grid.
pub open spec fn layout_fits(
    sv: Seq<TemplateView>,
    gv: Seq<TemplateView>,
    map_size: (isize, isize),
    s: int,
    mand: Seq<ChunkView>,
    opt: Seq<ChunkView>,
    g: int,
    target: GoalTarget,
) -> bool {
    let margin = spec_boundary_margin(map_size);
    chunks_shift_fit(
        seq![spec_place(sv[s], 0, 0)] + mand + opt + seq![spec_place(gv[g], target.origin.0 as int, target.origin.1 as int)],
        margin.0 as int,
        margin.1 as int,
    )
}

/// Putting the goal chunk at `target` after the required chunks `mand` always
/// works: a path through optional chunks leads to its entry, it fits there,
/// and whichever path is taken, the whole layout fits the framed grid.
pub open spec fn target_works(
    sv: Seq<TemplateView>,
    mv: Seq<TemplateView>,
    gv: Seq<TemplateView>,
    map_size: (isize, isize),
    s: int,
    mand: Seq<ChunkView>,
    g: int,
    target: GoalTarget,
) -> bool {
    let at = chain_end(mand, start_exit_of(sv[s]));
    &&& !no_path(mv, optional_list(mv), at, target.entry, map_size)
    &&& place_fits(gv[g], target.origin.0 as int, target.origin.1 as int)
    &&& forall|opt: Seq<ChunkView>, oi: Seq<usize>|
        #[trigger] path_ok(opt, oi, mv, optional_list(mv), at, target.entry, map_size)
            ==> layout_fits(sv, gv, map_size, s, mand, opt, g, target)
}

/// After the required chunks `mand`, the goal chunk `g` can be put right of
/// their end, and every place the generator may pick for it works.
pub open spec fn goal_always_works(
    sv: Seq<TemplateView>,
    mv: Seq<TemplateView>,
    gv: Seq<TemplateView>,
    map_size: (isize, isize),
    s: int,
    mand: Seq<ChunkView>,
    g: int,
) -> bool {
    let at = chain_end(mand, start_exit_of(sv[s]));
    &&& goal_target_possible(map_size, (at.x, at.y), gv[g])
    &&& forall|target: GoalTarget|
        goal_target_ok(target, map_size, (at.x, at.y), gv[g])
            ==> #[trigger] target_works(sv, mv, gv, map_size, s, mand, g, target)
}

/// With start template `s`, the required templates in the order `q` and goal
/// template `g`, the required chunks fit one after the other and the rest of
/// the attempt always works.
pub open spec fn choice_always_works(
    sv: Seq<TemplateView>,
    mv: Seq<TemplateView>,
    gv: Seq<TemplateView>,
    map_size: (isize, isize),
    s: int,
    q: Seq<usize>,
    g: int,
) -> bool {
    exists|mand: Seq<ChunkView>|
        #[trigger] chain_ok(mand, q, mv, start_exit_of(sv[s]), map_size)
            && goal_always_works(sv, mv, gv, map_size, s, mand, g)
}

/// Whatever the random choices (start template, order of the required
/// templates, goal template, height of the goal, path searched), an attempt
/// builds a layout: the templates leave nothing to chance.
pub open spec fn layout_always_found(
    sv: Seq<TemplateView>,
    mv: Seq<TemplateView>,
    gv: Seq<TemplateView>,
    map_size: (isize, isize),
) -> bool {
    forall|s: int, q: Seq<usize>, g: int|
        0 <= s < sv.len() && 0 <= g < gv.len() && q.to_multiset() == required_list(mv).to_multiset()
            ==> #[trigger] choice_always_works(sv, mv, gv, map_size, s, q, g)
}

proof fn lemma_always_after_mandatory(
    sv: Seq<TemplateView>,
    mv: Seq<TemplateView>,
    gv: Seq<TemplateView>,
    map_size: (isize, isize),
    s: int,
    q: Seq<usize>,
    g: int,
    mand: Seq<ChunkView>,
)
    requires
        layout_always_found(sv, mv, gv, map_size),
        0 <= s < sv.len(),
        0 <= g < gv.len(),
        q.to_multiset() == required_list(mv).to_multiset(),
        chain_ok(mand, q, mv, start_exit_of(sv[s]), map_size),
    ensures
        goal_always_works(sv, mv, gv, map_size, s, mand, g),
{
    assert(choice_always_works(sv, mv, gv, map_size, s, q, g));
    let m2 = choose|m2: Seq<ChunkView>|
        #[trigger] chain_ok(m2, q, mv, start_exit_of(sv[s]), map_size)
            && goal_always_works(sv, mv, gv, map_size, s, m2, g);
    lemma_chain_unique(m2, mand, q, mv, start_exit_of(sv[s]), map_size);
}

/// Number of attempts after which the generator gives up.
pub const MAX_LAYOUT_ATTEMPTS: u64 = 0xffff_ffff_ffff_ffff;

/// The required chunks laid one after another in the order `order`, starting
/// at `start_exit`, together with the right exit of the last one; `None`
/// when some chunk in that order cannot be attached. Only one chain can
/// follow a given order, so the result is exactly that chain.
pub fn build_mandatory_chain(
    mid_chunks: &Vec<InnerChunkTemplate>,
    order: &Vec<usize>,
    start_exit: Port,
    map_size: (isize, isize),
) -> (r: Option<(Vec<PlacedChunk>, Port)>)
    requires
        mids_wf(template_views(mid_chunks@)),
        indices_below(order@, mid_chunks.len() as int),
        start_exit.dir == Dir::Right,
    ensures
        r is Some <==> exists|c: Seq<ChunkView>| #[trigger] chain_ok(c, order@, template_views(mid_chunks@), start_exit, map_size),
        r matches Some(found) ==> {
            &&& chain_ok(chunk_views(found.0@), order@, template_views(mid_chunks@), start_exit, map_size)
            &&& found.1 == chain_end(chunk_views(found.0@), start_exit)
            &&& found.1.dir == Dir::Right
        },
{
    let ghost mv = template_views(mid_chunks@);
    let mut mandatory: Vec<PlacedChunk> = Vec::new();
    let mut at = start_exit;
    let mut k: usize = 0;
    while k < order.len()
        invariant
            mv == template_views(mid_chunks@),
            mids_wf(mv),
            indices_below(order@, mid_chunks.len() as int),
            k <= order.len(),
            start_exit.dir == Dir::Right,
            at.dir == Dir::Right,
            chain_ok(chunk_views(mandatory@), order@.take(k as int), mv, start_exit, map_size),
            at == chain_end(chunk_views(mandatory@), start_exit),
        decreases order.len() - k,
    {
        let ti = order[k];
        let template = &mid_chunks[ti];
        proof {
            assert(mv[ti as int] == template@);
            assert(template_wf(template@));
            assert(order@[k as int] == ti);
        }
        if at.x < template.entry.x || at.y < template.entry.y {
            proof {
                lemma_no_chain_after(chunk_views(mandatory@), order@, k as int, mv, start_exit, map_size);
            }
            return None;
        }
        let placed = place_middle_chunk(template, at, map_size);
        if placed.is_none() {
            proof {
                lemma_no_chain_after(chunk_views(mandatory@), order@, k as int, mv, start_exit, map_size);
            }
            return None;
        }
        let (placed, next_exit) = placed.unwrap();
        let ghost pv0 = chunk_views(mandatory@);
        let ghost idx0 = order@.take(k as int);
        proof {
            lemma_chain_len(pv0, idx0, mv, start_exit, map_size);
        }
        mandatory.push(placed);
        proof {
            let pv = chunk_views(mandatory@);
            assert(pv =~= pv0.push(placed@));
            assert(pv.drop_last() =~= pv0);
            assert(order@.take(k + 1).drop_last() =~= idx0);
            assert(order@.take(k + 1).last() == ti);
            assert(chain_ok(pv, order@.take(k + 1), mv, start_exit, map_size));
        }
        at = next_exit;
        k += 1;
    }
    proof {
        assert(order@.take(order.len() as int) =~= order@);
        assert(chain_ok(chunk_views(mandatory@), order@, mv, start_exit, map_size));
    }
    Some((mandatory, at))
}

/// Where a path through optional chunks that starts at `start` ends: the
/// right exit of its last chunk, or `start` when the path is empty or its
/// last chunk has no right exit.
pub open spec fn path_end_pos(path: Seq<ChunkView>, start: Port) -> (isize, isize) {
    if path.len() > 0 && spec_first_exit(path.last().exits, Dir::Right) is Some {
        let e = spec_first_exit(path.last().exits, Dir::Right)->0;
        (e.x, e.y)
    } else {
        (start.x, start.y)
    }
}

/// The layout an attempt builds, before it is moved into the framed grid:
/// the start chunk, the required chunks, the path and the goal chunk at
/// `target`.
pub open spec fn attempt_raw(
    start: ChunkView,
    mandatory: Seq<ChunkView>,
    path: Seq<ChunkView>,
    goal: TemplateView,
    target: GoalTarget,
) -> Seq<ChunkView> {
    seq![start] + mandatory + path + seq![spec_place(goal, target.origin.0 as int, target.origin.1 as int)]
}

/// Finishes an attempt once its chunks are chosen: the path must end on the
/// goal's entry, the goal chunk must fit at `target`, and the whole layout
/// must fit the framed grid; the layout is then moved into it. `None`
/// exactly when one of these fails.
pub fn assemble_layout(
    start: &PlacedChunk,
    mandatory: &Vec<PlacedChunk>,
    path: &Vec<PlacedChunk>,
    path_start: Port,
    goal_template: &InnerChunkTemplate,
    target: GoalTarget,
    margin: (isize, isize),
) -> (r: Option<PlacedChunkLayout>)
    requires
        in_isize(MAP_SIZE.0 - margin.0),
        in_isize(MAP_SIZE.1 - margin.1),
    ensures
        r is Some <==> {
            &&& path_end_pos(chunk_views(path@), path_start) == target.entry
            &&& place_fits(goal_template@, target.origin.0 as int, target.origin.1 as int)
            &&& chunks_shift_fit(
                attempt_raw(start@, chunk_views(mandatory@), chunk_views(path@), goal_template@, target),
                margin.0 as int,
                margin.1 as int,
            )
        },
        r matches Some(layout) ==> {
            &&& chunk_views(layout.placed_chunks@) == shift_chunks_seq(
                attempt_raw(start@, chunk_views(mandatory@), chunk_views(path@), goal_template@, target),
                margin.0 as int,
                margin.1 as int,
            )
            &&& layout.map_size == MAP_SIZE
            &&& layout.boundary_margin == margin
            &&& layout.margin_tiles@ == spec_margin_tiles(margin)
        },
{
    let final_exit = if path.len() > 0 {
        pick_exit_dir(&path[path.len() - 1], Dir::Right)
    } else {
        None
    };
    let final_pos = match final_exit {
        Some(e) => (e.x, e.y),
        None => (path_start.x, path_start.y),
    };
    proof {
        if path.len() > 0 {
            assert(chunk_views(path@).last() == path@[path.len() - 1]@);
        }
    }
    if final_pos.0 != target.entry.0 || final_pos.1 != target.entry.1 {
        return None;
    }
    let goal_placed = place_chunk(goal_template, target.origin);
    if goal_placed.is_none() {
        return None;
    }
    let goal_placed = goal_placed.unwrap();
    let mut layout: Vec<PlacedChunk> = Vec::new();
    layout.push(start.duplicate());
    let mut a: usize = 0;
    while a < mandatory.len()
        invariant
            a <= mandatory.len(),
            chunk_views(layout@) == seq![start@] + chunk_views(mandatory@).take(a as int),
        decreases mandatory.len() - a,
    {
        let c = mandatory[a].duplicate();
        let ghost before = layout@;
        layout.push(c);
        proof {
            assert(chunk_views(layout@) =~= chunk_views(before).push(c@));
            assert(chunk_views(mandatory@).take(a + 1) =~= chunk_views(mandatory@).take(a as int).push(mandatory@[a as int]@));
        }
        a += 1;
    }
    let mut b: usize = 0;
    while b < path.len()
        invariant
            b <= path.len(),
            a == mandatory.len(),
            chunk_views(layout@) == seq![start@] + chunk_views(mandatory@).take(a as int) + chunk_views(path@).take(b as int),
        decreases path.len() - b,
    {
        let c = path[b].duplicate();
        let ghost before = layout@;
        layout.push(c);
        proof {
            assert(chunk_views(layout@) =~= chunk_views(before).push(c@));
            assert(chunk_views(path@).take(b + 1) =~= chunk_views(path@).take(b as int).push(path@[b as int]@));
        }
        b += 1;
    }
    let ghost before_goal = layout@;
    layout.push(goal_placed);
    proof {
        let mand = chunk_views(mandatory@);
        let opt = chunk_views(path@);
        assert(mand.take(a as int) =~= mand);
        assert(opt.take(b as int) =~= opt);
        assert(chunk_views(layout@) =~= chunk_views(before_goal).push(goal_placed@));
        assert(chunk_views(layout@) =~= attempt_raw(start@, mand, opt, goal_template@, target));
    }
    PlacedChunkLayout::new(layout, margin)
}

/// Builds a random layout: a start chunk, the required middle chunks in a
/// random order (`build_mandatory_chain`), a searched path through optional
/// middle chunks, and a goal chunk (`assemble_layout`); then moves it into
/// the framed grid. Each failed attempt starts
/// over; `None` comes back only after `MAX_LAYOUT_ATTEMPTS` failures. When
/// no random choice can make an attempt fail, the first attempt succeeds.
pub fn try_build_random_path(
    rng: &mut rand::rngs::ThreadRng,
    map_size: (isize, isize),
    start_chunks: &Vec<InnerChunkTemplate>,
    mid_chunks: &Vec<InnerChunkTemplate>,
    goal_chunks: &Vec<InnerChunkTemplate>,
) -> (r: Option<PlacedChunkLayout>)
    requires
        templates_ready(template_views(start_chunks@), template_views(mid_chunks@), template_views(goal_chunks@)),
        map_size.0 >= 0,
        map_size.1 >= 0,
    ensures
        r matches Some(layout) ==> {
            &&& exists|raw: Seq<ChunkView>|
                #![trigger raw_layout_ok(raw, template_views(start_chunks@), template_views(mid_chunks@), template_views(goal_chunks@), map_size)]
                raw_layout_ok(raw, template_views(start_chunks@), template_views(mid_chunks@), template_views(goal_chunks@), map_size)
                && chunk_views(layout.placed_chunks@) == shift_chunks_seq(
                    raw,
                    spec_boundary_margin(map_size).0 as int,
                    spec_boundary_margin(map_size).1 as int,
                )
            &&& layout.map_size == MAP_SIZE
            &&& layout.boundary_margin == spec_boundary_margin(map_size)
            &&& layout.margin_tiles@ == spec_margin_tiles(spec_boundary_margin(map_size))
        },
        layout_always_found(template_views(start_chunks@), template_views(mid_chunks@), template_views(goal_chunks@), map_size)
            ==> r is Some,
{
    let ghost sv = template_views(start_chunks@);
    let ghost mv = template_views(mid_chunks@);
    let ghost gv = template_views(goal_chunks@);
    let s = random_below(rng, start_chunks.len());
    proof {
        assert(sv[s as int] == start_chunks@[s as int]@);
        lemma_place_at_origin(sv[s as int]);
    }
    let placed_start = place_chunk(&start_chunks[s], (0, 0)).unwrap();
    let start_exit = pick_exit_dir(&placed_start, Dir::Right).unwrap();
    let (required, optional) = split_required(mid_chunks);
    proof {
        lemma_lists_below(mv);
    }
    let margin = boundary_margin(map_size);
    let mut attempts_left: u64 = MAX_LAYOUT_ATTEMPTS;
    while attempts_left > 0
        invariant
            sv == template_views(start_chunks@),
            mv == template_views(mid_chunks@),
            gv == template_views(goal_chunks@),
            templates_ready(sv, mv, gv),
            map_size.0 >= 0,
            map_size.1 >= 0,
            0 <= s < sv.len(),
            placed_start@ == spec_place(sv[s as int], 0, 0),
            Some(start_exit) == spec_first_exit(placed_start@.exits, Dir::Right),
            start_exit.dir == Dir::Right,
            required@ == required_list(mv),
            optional@ == optional_list(mv),
            indices_below(required@, mid_chunks.len() as int),
            indices_below(optional@, mid_chunks.len() as int),
            margin == spec_boundary_margin(map_size),
            in_isize(MAP_SIZE.0 - margin.0),
            in_isize(MAP_SIZE.1 - margin.1),
            start_exit == start_exit_of(sv[s as int]),
            layout_always_found(sv, mv, gv, map_size) ==> attempts_left == MAX_LAYOUT_ATTEMPTS,
        decreases attempts_left,
    {
        attempts_left -= 1;
        let mut queue = copy_indices(&required);
        shuffle_indices(rng, &mut queue);
        proof {
            assert forall|i: int| 0 <= i < queue@.len() implies #[trigger] queue@[i] < mid_chunks.len() by {
                assert(queue@.contains(queue@[i]));
                assert(queue@.to_multiset().count(queue@[i]) > 0);
                assert(required@.contains(queue@[i]));
            }
            assert(queue@.to_multiset() == required_list(mv).to_multiset());
        }
        let chain = build_mandatory_chain(mid_chunks, &queue, start_exit, map_size);
        if chain.is_none() {
            proof {
                if layout_always_found(sv, mv, gv, map_size) {
                    assert(choice_always_works(sv, mv, gv, map_size, s as int, queue@, 0));
                }
            }
            continue;
        }
        let (mandatory, path_start_exit) = chain.unwrap();
        let g = random_below(rng, goal_chunks.len());
        let goal_template = &goal_chunks[g];
        proof {
            assert(gv[g as int] == goal_template@);
        }
        let ghost mand_view = chunk_views(mandatory@);
        proof {
            if layout_always_found(sv, mv, gv, map_size) {
                lemma_always_after_mandatory(sv, mv, gv, map_size, s as int, queue@, g as int, mand_view);
            }
        }
        let goal_target = random_goal_target(rng, map_size, path_start_exit, goal_template);
        if goal_target.is_none() {
            continue;
        }
        let goal_target = goal_target.unwrap();
        proof {
            if layout_always_found(sv, mv, gv, map_size) {
                assert(target_works(sv, mv, gv, map_size, s as int, mand_view, g as int, goal_target));
            }
        }
        let found = find_path_to_goal(rng, map_size, mid_chunks, &optional, path_start_exit, goal_target.entry);
        if found.is_none() {
            continue;
        }
        let (mid_path, opt_idx) = found.unwrap();
        let ghost opt = chunk_views(mid_path@);
        proof {
            if mid_path.len() > 0 {
                lemma_chain_last_exit(opt, opt_idx@, mv, path_start_exit, map_size);
            }
            assert(path_end_pos(opt, path_start_exit) == goal_target.entry);
        }
        let built = assemble_layout(&placed_start, &mandatory, &mid_path, path_start_exit, goal_template, goal_target, margin);
        let ghost raw = attempt_raw(placed_start@, mand_view, opt, goal_template@, goal_target);
        proof {
            if layout_always_found(sv, mv, gv, map_size) {
                assert(path_ok(opt, opt_idx@, mv, optional_list(mv), path_start_exit, goal_target.entry, map_size));
                assert(layout_fits(sv, gv, map_size, s as int, mand_view, opt, g as int, goal_target));
                assert(raw =~= seq![spec_place(sv[s as int], 0, 0)] + mand_view + opt
                    + seq![spec_place(gv[g as int], goal_target.origin.0 as int, goal_target.origin.1 as int)]);
            }
        }
        if built.is_none() {
            continue;
        }
        proof {
            let m = queue@.len() as int;
            let n = opt_idx@.len() as int;
            assert(mand_view.len() == m) by {
                lemma_chain_len(mand_view, queue@, mv, start_exit, map_size);
            }
            assert(opt.len() == n) by {
                lemma_chain_len(opt, opt_idx@, mv, path_start_exit, map_size);
            }
            assert(raw.subrange(1, m + 1) =~= mand_view);
            assert(raw.subrange(m + 1, m + 1 + n) =~= opt);
            assert(raw[m + n + 1] == spec_place(gv[g as int], goal_target.origin.0 as int, goal_target.origin.1 as int));
            assert(layout_witness(raw, sv, mv, gv, map_size, s as int, queue@, opt_idx@, g as int, goal_target));
            assert(raw_layout_ok(raw, sv, mv, gv, map_size));
        }
        return built;
    }
    None
}

/// When the chain built so far for the first `k` indices of `q` cannot take
/// the next one, no chain takes all of `q`.
proof fn lemma_no_chain_after(
    built: Seq<ChunkView>,
    q: Seq<usize>,
    k: int,
    mids: Seq<TemplateView>,
    start: Port,
    map_size: (isize, isize),
)
    requires
        0 <= k < q.len(),
        q[k] < mids.len(),
        chain_ok(built, q.take(k), mids, start, map_size),
        !({
            let at = chain_end(built, start);
            let t = mids[q[k] as int];
            at.x >= t.entry.x && at.y >= t.entry.y && middle_step_ok(t, at, map_size)
        }),
    ensures
        forall|c: Seq<ChunkView>| !#[trigger] chain_ok(c, q, mids, start, map_size),
{
    assert forall|c: Seq<ChunkView>| !#[trigger] chain_ok(c, q, mids, start, map_size) by {
        if chain_ok(c, q, mids, start, map_size) {
            lemma_chain_prefix(c, q, mids, start, map_size, k);
            lemma_chain_unique(c.take(k), built, q.take(k), mids, start, map_size);
        }
    }
}

proof fn lemma_chain_len(
    chunks: Seq<ChunkView>,
    idx: Seq<usize>,
    mids: Seq<TemplateView>,
    start: Port,
    map_size: (isize, isize),
)
    requires
        chain_ok(chunks, idx, mids, start, map_size),
    ensures
        chunks.len() == idx.len(),
    decreases chunks.len(),
{
}


proof fn lemma_first_exit_of_rights(s: Seq<Port>)
    requires
        s.len() > 0,
        s[0].dir == Dir::Right,
    ensures
        spec_first_exit(s, Dir::Right) is Some,
{
}

/// The decoded templates of a usable stage file are what the generator needs.
proof fn lemma_config_ready(config: &ChunkGrammarConfig)
    requires
        config.spec_usable(),
    ensures
        templates_ready(
            decoded_all(config.start_chunks@, false),
            decoded_all(config.middle_chunks@, true),
            decoded_all(config.goal_chunks@, true),
        ),
{
    let sv = decoded_all(config.start_chunks@, false);
    let mv = decoded_all(config.middle_chunks@, true);
    let gv = decoded_all(config.goal_chunks@, true);
    assert forall|i: int| 0 <= i < sv.len() implies spec_first_exit((#[trigger] sv[i]).exits, Dir::Right) is Some by {
        let c = config.start_chunks@[i];
        assert(c.spec_fits());
        lemma_decoded_template_wf(&c, false);
        assert(sv[i] == spec_inner_template(&c, false));
        assert(grid_exits(rows_of(c.map@), c.map.len() as int).len() > 0);
        lemma_first_exit_of_rights(sv[i].exits);
    }
    assert forall|i: int| 0 <= i < mv.len() implies template_wf(#[trigger] mv[i]) by {
        let c = config.middle_chunks@[i];
        assert(c.spec_fits());
        assert(c.spec_has_entry());
        lemma_decoded_template_wf(&c, true);
    }
    assert forall|i: int| 0 <= i < gv.len() implies template_wf(#[trigger] gv[i]) by {
        let c = config.goal_chunks@[i];
        assert(c.spec_fits());
        assert(c.spec_has_entry());
        lemma_decoded_template_wf(&c, true);
    }
}

/// A random layout for a stage file, moved into the framed grid; there is
/// one whenever no random choice can make an attempt fail.
pub fn generate_random_layout(config: &ChunkGrammarConfig) -> (r: Option<PlacedChunkLayout>)
    requires
        config.spec_usable(),
    ensures
        r matches Some(layout) ==> {
            &&& exists|raw: Seq<ChunkView>|
                #![trigger raw_layout_ok(raw, decoded_all(config.start_chunks@, false), decoded_all(config.middle_chunks@, true), decoded_all(config.goal_chunks@, true), config.map_size)]
                raw_layout_ok(
                    raw,
                    decoded_all(config.start_chunks@, false),
                    decoded_all(config.middle_chunks@, true),
                    decoded_all(config.goal_chunks@, true),
                    config.map_size,
                ) && chunk_views(layout.placed_chunks@) == shift_chunks_seq(
                    raw,
                    spec_boundary_margin(config.map_size).0 as int,
                    spec_boundary_margin(config.map_size).1 as int,
                )
            &&& layout.map_size == MAP_SIZE
            &&& layout.boundary_margin == spec_boundary_margin(config.map_size)
            &&& layout.margin_tiles@ == spec_margin_tiles(spec_boundary_margin(config.map_size))
        },
        layout_always_found(
            decoded_all(config.start_chunks@, false),
            decoded_all(config.middle_chunks@, true),
            decoded_all(config.goal_chunks@, true),
            config.map_size,
        ) ==> r is Some,
{
    let starts = config.starts();
    let middles = config.middles();
    let goals = config.goals();
    proof {
        lemma_config_ready(config);
    }
    let mut rng = thread_rng();
    try_build_random_path(&mut rng, config.map_size, &starts, &middles, &goals)
}

/// Generates a stage from a stage file: a random layout with the goal column
/// finished. `None` only after `MAX_LAYOUT_ATTEMPTS` failed attempts, and
/// never when no random choice can make an attempt fail.
pub fn generate_map_from_config(config: ChunkGrammarConfig) -> (r: Option<StageMap>)
    requires
        config.spec_usable(),
    ensures
        r matches Some(m) ==> {
            let margin = spec_boundary_margin(config.map_size);
            &&& exists|raw: Seq<ChunkView>|
                #![trigger raw_layout_ok(raw, decoded_all(config.start_chunks@, false), decoded_all(config.middle_chunks@, true), decoded_all(config.goal_chunks@, true), config.map_size)]
                raw_layout_ok(
                    raw,
                    decoded_all(config.start_chunks@, false),
                    decoded_all(config.middle_chunks@, true),
                    decoded_all(config.goal_chunks@, true),
                    config.map_size,
                ) && chunk_views(m.placed_chunks@) == spec_adjust_goal(
                    shift_chunks_seq(raw, margin.0 as int, margin.1 as int),
                    margin.1,
                )
            &&& m.map_size == MAP_SIZE
            &&& m.stone_type == config.stone_type
            &&& m.boundary_margin == margin
            &&& m.margin_tiles@ == spec_margin_tiles(margin)
        },
        layout_always_found(
            decoded_all(config.start_chunks@, false),
            decoded_all(config.middle_chunks@, true),
            decoded_all(config.goal_chunks@, true),
            config.map_size,
        ) ==> r is Some,
{
    let layout = generate_random_layout(&config);
    if layout.is_none() {
        return None;
    }
    let mut map = StageMap::from_layout(layout.unwrap(), config.stone_type);
    adjust_goal_layout(&mut map);
    Some(map)
}

} // verus!
