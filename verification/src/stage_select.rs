use vstd::prelude::*;

use crate::stage::{meta_view, StageCatalog, StageMeta, StageProgress};
use crate::text::{concat_str, decimal_digits, format_usize};

verus! {

/// Stage cards shown on one page of the stage select screen.
pub const CARDS_PER_PAGE: usize = 3;

/// Which page of stage cards is shown.
pub struct StageSelectState {
    current_page: usize,
    cards_per_page: usize,
    total_entries: usize,
}

/// Pages needed for `total` entries at `per_page` a page, at least one.
pub open spec fn spec_total_pages(total: nat, per_page: nat) -> nat {
    if per_page == 0 {
        1
    } else {
        let pages = total / per_page + if total % per_page != 0 {
            1nat
        } else {
            0nat
        };
        if pages == 0 {
            1
        } else {
            pages
        }
    }
}

impl StageSelectState {
    pub closed spec fn page(&self) -> nat {
        self.current_page as nat
    }

    pub closed spec fn per_page(&self) -> nat {
        self.cards_per_page as nat
    }

    pub closed spec fn entries(&self) -> nat {
        self.total_entries as nat
    }

    /// The shown page lies within the pages there are.
    #[verifier::type_invariant]
    spec fn wf(&self) -> bool {
        &&& self.cards_per_page >= 1
        &&& self.total_entries >= 1
        &&& self.current_page < spec_total_pages(self.total_entries as nat, self.cards_per_page as nat)
    }

    /// The first page of `total_entries` cards, `cards_per_page` a page;
    /// both count as at least one.
    pub fn new(total_entries: usize, cards_per_page: usize) -> (r: StageSelectState)
        ensures
            r.page() == 0,
            r.per_page() == if cards_per_page == 0 {
                1
            } else {
                cards_per_page as nat
            },
            r.entries() == if total_entries == 0 {
                1
            } else {
                total_entries as nat
            },
    {
        let per = if cards_per_page == 0 {
            1
        } else {
            cards_per_page
        };
        let total = if total_entries == 0 {
            1
        } else {
            total_entries
        };
        proof {
            lemma_total_pages_positive(total as nat, per as nat);
        }
        StageSelectState { current_page: 0, cards_per_page: per, total_entries: total }
    }

    /// The page shown, counted from zero.
    pub fn current_page(&self) -> (r: usize)
        ensures
            r == self.page(),
    {
        self.current_page
    }

    /// How many pages there are.
    pub fn total_pages(&self) -> (r: usize)
        ensures
            r == spec_total_pages(self.entries(), self.per_page()),
            r >= 1,
    {
        proof {
            use_type_invariant(self);
        }
        let t = self.total_entries;
        let c = self.cards_per_page;
        proof {
            lemma_total_pages_positive(t as nat, c as nat);
        }
        let pages = t / c + if t % c != 0 {
            1
        } else {
            0
        };
        if pages == 0 {
            1
        } else {
            pages
        }
    }

    /// The positions of the cards on the shown page, from `start` up to but
    /// not including `end`.
    pub fn visible_range(&self) -> (r: (usize, usize))
        ensures
            r.0 == if self.page() * self.per_page() < self.entries() {
                self.page() * self.per_page()
            } else {
                self.entries()
            },
            r.1 == if r.0 + self.per_page() < self.entries() {
                r.0 + self.per_page()
            } else {
                self.entries() as int
            },
    {
        proof {
            use_type_invariant(self);
        }
        let t = self.total_entries;
        let c = self.cards_per_page;
        let p = self.current_page;
        proof {
            lemma_page_start_fits(p as nat, t as nat, c as nat);
        }
        let start = p * c;
        let end = if t - start > c {
            start + c
        } else {
            t
        };
        (start, end)
    }

    /// Moves `delta` pages on, stopping at the first and the last page; says
    /// whether the page changed.
    pub fn move_page(&mut self, delta: isize) -> (r: bool)
        requires
            isize::MIN <= old(self).page() + delta <= isize::MAX,
        ensures
            final(self).per_page() == old(self).per_page(),
            final(self).entries() == old(self).entries(),
            spec_total_pages(old(self).entries(), old(self).per_page()) <= isize::MAX ==> final(self).page()
                == spec_clamp_page(
                old(self).page() + delta,
                spec_total_pages(old(self).entries(), old(self).per_page()),
            ),
            spec_total_pages(old(self).entries(), old(self).per_page()) > isize::MAX ==> final(self).page()
                == old(self).page(),
            r == (final(self).page() != old(self).page()),
    {
        proof {
            use_type_invariant(&*self);
        }
        let total = self.total_pages();
        if total > isize::MAX as usize {
            return false;
        }
        let total_i = total as isize;
        let mut next = self.current_page as isize + delta;
        if next < 0 {
            next = 0;
        }
        if next > total_i - 1 {
            next = total_i - 1;
        }
        let next_u = next as usize;
        let changed = next_u != self.current_page;
        if changed {
            self.current_page = next_u;
        }
        changed
    }

    /// Shows the page holding the card at position `index`, as when the
    /// screen opens on the stage played last.
    pub fn show_card(&mut self, index: usize)
        requires
            index < old(self).entries(),
        ensures
            final(self).page() == (index as nat) / old(self).per_page(),
            final(self).per_page() == old(self).per_page(),
            final(self).entries() == old(self).entries(),
    {
        proof {
            use_type_invariant(&*self);
            lemma_card_page_in_range(index as nat, self.total_entries as nat, self.cards_per_page as nat);
        }
        self.current_page = index / self.cards_per_page;
    }

    /// The page indicator: the shown page counted from one, a slash, and the
    /// number of pages.
    pub fn page_indicator(&self) -> (r: String)
        ensures
            r@ == decimal_digits(self.page() + 1) + "/"@ + decimal_digits(
                spec_total_pages(self.entries(), self.per_page()),
            ),
    {
        proof {
            use_type_invariant(self);
        }
        let total = self.total_pages();
        let shown = format_usize(self.current_page + 1);
        let head = concat_str(shown.as_str(), "/");
        let pages = format_usize(total);
        concat_str(head.as_str(), pages.as_str())
    }
}

proof fn lemma_card_page_in_range(index: nat, t: nat, c: nat)
    requires
        c >= 1,
        index < t,
    ensures
        index / c < spec_total_pages(t, c),
{
    let q = t / c;
    let r = t % c;
    assert(t == q * c + r && r < c) by (nonlinear_arith)
        requires
            c >= 1,
            q == t / c,
            r == t % c,
    ;
    assert(index / c <= t / c) by (nonlinear_arith)
        requires
            c >= 1,
            index < t,
    ;
    if r == 0 {
        assert(index / c < q) by (nonlinear_arith)
            requires
                c >= 1,
                index < t,
                t == q * c,
        ;
    }
}

/// A page number kept between the first and the last of `total` pages.
pub open spec fn spec_clamp_page(wanted: int, total: nat) -> nat {
    if wanted < 0 {
        0
    } else if wanted > total - 1 {
        (total - 1) as nat
    } else {
        wanted as nat
    }
}

proof fn lemma_total_pages_positive(t: nat, c: nat)
    requires
        c >= 1,
        t >= 1,
    ensures
        spec_total_pages(t, c) >= 1,
        spec_total_pages(t, c) <= t,
        t / c + (if t % c != 0 {
            1nat
        } else {
            0nat
        }) <= t,
{
    assert(t / c <= t) by (nonlinear_arith)
        requires
            c >= 1,
    ;
    if t % c != 0 {
        assert(t / c < t) by (nonlinear_arith)
            requires
                c >= 1,
                t % c != 0,
                t >= 1,
        {
            if c == 1 {
                assert(t % c == 0);
            }
        }
    }
}

proof fn lemma_page_start_fits(p: nat, t: nat, c: nat)
    requires
        c >= 1,
        t >= 1,
        p < spec_total_pages(t, c),
    ensures
        p * c < t,
{
    lemma_total_pages_positive(t, c);
    let q = t / c;
    let extra: nat = if t % c != 0 {
        1
    } else {
        0
    };
    assert(t == q * c + t % c) by (nonlinear_arith)
        requires
            c >= 1,
            q == t / c,
    ;
    if q + extra == 0 {
        assert(p == 0);
    } else {
        assert(p + 1 <= q + extra);
        assert(p * c + c <= q * c + extra * c) by (nonlinear_arith)
            requires
                p + 1 <= q + extra,
                c >= 1,
        ;
        if extra == 0 {
            assert(p * c < t);
        } else {
            assert(p * c + c <= q * c + c);
            assert(p * c <= q * c);
        }
    }
}

/// The shown page always lies within the pages there are, whatever moves
/// were made.
pub proof fn lemma_clamped_page_in_range(wanted: int, total: nat)
    requires
        total >= 1,
    ensures
        spec_clamp_page(wanted, total) < total,
        0 <= wanted < total ==> spec_clamp_page(wanted, total) == wanted,
{
}

/// A stage card: the stage and whether it can be played.
pub struct StageEntry {
    pub meta: StageMeta,
    pub playable: bool,
}

impl StageEntry {
    /// The card for `meta`: playable when `stage_progress` has opened it.
    pub fn from(stage_progress: &StageProgress, meta: &StageMeta) -> (r: StageEntry)
        ensures
            meta_view(r.meta) == meta_view(*meta),
            r.playable == (meta.id.0 <= stage_progress.unlocked_until()),
    {
        StageEntry { meta: meta.duplicate(), playable: stage_progress.is_unlocked(meta.id) }
    }
}

/// How many of `entries` are playable.
pub open spec fn playable_count(entries: Seq<StageEntry>) -> nat
    decreases entries.len(),
{
    if entries.len() == 0 {
        0
    } else {
        playable_count(entries.drop_last()) + if entries.last().playable {
            1nat
        } else {
            0nat
        }
    }
}

/// Counts shown on the stage select screen.
pub struct StageSummary {
    pub total: usize,
    pub unlocked: usize,
    pub locked: usize,
}

proof fn lemma_playable_count_bound(entries: Seq<StageEntry>)
    ensures
        playable_count(entries) <= entries.len(),
    decreases entries.len(),
{
    if entries.len() > 0 {
        lemma_playable_count_bound(entries.drop_last());
    }
}

impl StageSummary {
    /// The number of cards, of playable cards and of locked cards.
    pub fn from_entries(entries: &[StageEntry]) -> (r: StageSummary)
        ensures
            r.total == entries@.len(),
            r.unlocked == playable_count(entries@),
            r.locked == entries@.len() - playable_count(entries@),
    {
        let total = entries.len();
        let mut unlocked: usize = 0;
        let mut i: usize = 0;
        while i < total
            invariant
                total == entries@.len(),
                i <= total,
                unlocked == playable_count(entries@.take(i as int)),
                unlocked <= i,
            decreases total - i,
        {
            proof {
                assert(entries@.take(i + 1).drop_last() =~= entries@.take(i as int));
            }
            if entries[i].playable {
                unlocked += 1;
            }
            i += 1;
        }
        proof {
            assert(entries@.take(total as int) =~= entries@);
            lemma_playable_count_bound(entries@);
        }
        StageSummary { total, unlocked, locked: total - unlocked }
    }
}

/// How a button reacts to the pointer.
#[derive(Debug, Clone, Copy, PartialEq, Eq, Structural)]
pub enum PointerInteraction {
    Pressed,
    Hovered,
    Idle,
}

/// Which of a button's four looks it shows.
#[derive(Debug, Clone, Copy, PartialEq, Eq, Structural)]
pub enum ButtonLook {
    Normal,
    Hovered,
    Pressed,
    Disabled,
}

/// The look of a button: disabled buttons always look disabled, others
/// follow the pointer.
pub fn button_look(enabled: bool, interaction: PointerInteraction) -> (r: ButtonLook)
    ensures
        !enabled ==> r == ButtonLook::Disabled,
        enabled ==> r == match interaction {
            PointerInteraction::Pressed => ButtonLook::Pressed,
            PointerInteraction::Hovered => ButtonLook::Hovered,
            PointerInteraction::Idle => ButtonLook::Normal,
        },
{
    if !enabled {
        return ButtonLook::Disabled;
    }
    match interaction {
        PointerInteraction::Pressed => ButtonLook::Pressed,
        PointerInteraction::Hovered => ButtonLook::Hovered,
        PointerInteraction::Idle => ButtonLook::Normal,
    }
}

/// The cards of the stage select screen, one for each stage of the
/// catalog, in its order.
pub fn build_stage_entries(progress: &StageProgress, catalog: &StageCatalog) -> (r: Vec<StageEntry>)
    ensures
        r@.len() == catalog.stages@.len(),
        forall|i: int|
            0 <= i < r@.len() ==> meta_view((#[trigger] r@[i]).meta) == meta_view(catalog.stages@[i])
                && r@[i].playable == (catalog.stages@[i].id.0 <= progress.unlocked_until()),
{
    let mut out: Vec<StageEntry> = Vec::new();
    let mut i: usize = 0;
    while i < catalog.stages.len()
        invariant
            i <= catalog.stages@.len(),
            out@.len() == i,
            forall|k: int|
                0 <= k < i ==> meta_view((#[trigger] out@[k]).meta) == meta_view(catalog.stages@[k])
                    && out@[k].playable == (catalog.stages@[k].id.0 <= progress.unlocked_until()),
        decreases catalog.stages@.len() - i,
    {
        out.push(StageEntry::from(progress, &catalog.stages[i]));
        i += 1;
    }
    out
}

} // verus!
