use vstd::prelude::*;

use crate::script_engine::Language;
use crate::text::{concat_str, decimal_digits, format_usize};

verus! {

/// The number a stage is known by.
#[derive(Debug, Clone, Copy, PartialEq, Eq, Hash, Structural)]
pub struct StageId(pub usize);

impl Default for StageId {
    /// The stage numbered zero.
    fn default() -> (r: StageId)
        ensures
            r == StageId(0),
    {
        StageId(0)
    }
}

/// What the catalog knows of a stage.
#[derive(Debug)]
pub struct StageMeta {
    pub id: StageId,
    pub title: String,
    pub unlocked: bool,
}

/// A stage's entry as plain values: number, title and whether it starts
/// unlocked.
pub open spec fn meta_view(m: StageMeta) -> (usize, Seq<char>, bool) {
    (m.id.0, m.title@, m.unlocked)
}

impl StageMeta {
    /// An independent copy of the entry.
    pub fn duplicate(&self) -> (r: StageMeta)
        ensures
            meta_view(r) == meta_view(*self),
    {
        StageMeta { id: self.id, title: self.title.clone(), unlocked: self.unlocked }
    }
}

/// A stage as the stage list file writes it.
pub struct StageEntryRecord {
    pub id: usize,
    pub unlocked: bool,
}

/// The title a stage is shown with: `Stage ` and its number.
pub open spec fn spec_stage_title(id: usize) -> Seq<char> {
    "Stage "@ + decimal_digits(id as nat)
}

/// Turns the stage list file's entries into catalog entries, in order.
pub fn build_stage_meta(entries: Vec<StageEntryRecord>) -> (r: Vec<StageMeta>)
    ensures
        r@.len() == entries@.len(),
        forall|i: int|
            0 <= i < r@.len() ==> meta_view(#[trigger] r@[i]) == (
                entries@[i].id,
                spec_stage_title(entries@[i].id),
                entries@[i].unlocked,
            ),
{
    let mut out: Vec<StageMeta> = Vec::new();
    let mut i: usize = 0;
    while i < entries.len()
        invariant
            i <= entries@.len(),
            out@.len() == i,
            forall|k: int|
                0 <= k < i ==> meta_view(#[trigger] out@[k]) == (
                    entries@[k].id,
                    spec_stage_title(entries@[k].id),
                    entries@[k].unlocked,
                ),
        decreases entries@.len() - i,
    {
        let id = entries[i].id;
        let digits = format_usize(id);
        let title = concat_str("Stage ", digits.as_str());
        out.push(StageMeta { id: StageId(id), title, unlocked: entries[i].unlocked });
        i += 1;
    }
    out
}

/// The stages of the game, in the order the stage list gives them.
pub struct StageCatalog {
    pub stages: Vec<StageMeta>,
}

/// Whether some entry of `stages` is numbered `id`.
pub open spec fn has_stage(stages: Seq<StageMeta>, id: usize) -> bool {
    exists|i: int| 0 <= i < stages.len() && (#[trigger] stages[i]).id.0 == id
}

/// Whether `i` is the first position of `stages` numbered `id`.
pub open spec fn first_stage_at(stages: Seq<StageMeta>, id: usize, i: int) -> bool {
    &&& 0 <= i < stages.len()
    &&& stages[i].id.0 == id
    &&& forall|k: int| 0 <= k < i ==> (#[trigger] stages[k]).id.0 != id
}

/// The highest number among the unlocked stages of `stages`, or zero when
/// none is unlocked.
pub open spec fn max_unlocked(stages: Seq<StageMeta>) -> usize
    decreases stages.len(),
{
    if stages.len() == 0 {
        0
    } else {
        let rest = max_unlocked(stages.drop_last());
        let last = stages.last();
        if last.unlocked && last.id.0 > rest {
            last.id.0
        } else {
            rest
        }
    }
}

impl StageCatalog {
    /// A catalog of `stages`.
    pub fn new(stages: Vec<StageMeta>) -> (r: StageCatalog)
        ensures
            r.stages@ == stages@,
    {
        StageCatalog { stages }
    }

    /// The stage at position `index` of the list.
    pub fn stage_by_index(&self, index: usize) -> (r: Option<&StageMeta>)
        ensures
            index < self.stages@.len() ==> r == Some(&self.stages@[index as int]),
            index >= self.stages@.len() ==> r is None,
    {
        if index < self.stages.len() {
            Some(&self.stages[index])
        } else {
            None
        }
    }

    /// The first stage numbered `stage_id`.
    pub fn stage_by_id(&self, stage_id: StageId) -> (r: Option<&StageMeta>)
        ensures
            r is None <==> !has_stage(self.stages@, stage_id.0),
            r matches Some(m) ==> exists|i: int|
                first_stage_at(self.stages@, stage_id.0, i) && *m == self.stages@[i],
    {
        let mut i: usize = 0;
        while i < self.stages.len()
            invariant
                i <= self.stages@.len(),
                forall|k: int| 0 <= k < i ==> (#[trigger] self.stages@[k]).id.0 != stage_id.0,
            decreases self.stages@.len() - i,
        {
            if self.stages[i].id.0 == stage_id.0 {
                proof {
                    assert(first_stage_at(self.stages@, stage_id.0, i as int));
                }
                return Some(&self.stages[i]);
            }
            i += 1;
        }
        None
    }

    /// The stage that follows `stage_id`: the first one numbered one more.
    pub fn next_stage(&self, stage_id: StageId) -> (r: Option<&StageMeta>)
        requires
            stage_id.0 < usize::MAX,
        ensures
            r is None <==> !has_stage(self.stages@, (stage_id.0 + 1) as usize),
            r matches Some(m) ==> exists|i: int|
                first_stage_at(self.stages@, (stage_id.0 + 1) as usize, i) && *m == self.stages@[i],
    {
        self.stage_by_id(StageId(stage_id.0 + 1))
    }

    /// The highest number among the unlocked stages, or zero when none is.
    pub fn max_unlocked_stage_id(&self) -> (r: StageId)
        ensures
            r.0 == max_unlocked(self.stages@),
    {
        let mut best: usize = 0;
        let mut i: usize = 0;
        while i < self.stages.len()
            invariant
                i <= self.stages@.len(),
                best == max_unlocked(self.stages@.take(i as int)),
            decreases self.stages@.len() - i,
        {
            proof {
                assert(self.stages@.take(i + 1).drop_last() =~= self.stages@.take(i as int));
            }
            if self.stages[i].unlocked && self.stages[i].id.0 > best {
                best = self.stages[i].id.0;
            }
            i += 1;
        }
        proof {
            assert(self.stages@.take(i as int) =~= self.stages@);
        }
        StageId(best)
    }
}

/// No unlocked stage is numbered above the highest unlocked number, and when
/// some stage is unlocked that number belongs to one of them.
pub proof fn lemma_max_unlocked_is_max(stages: Seq<StageMeta>)
    ensures
        forall|i: int|
            0 <= i < stages.len() && (#[trigger] stages[i]).unlocked ==> stages[i].id.0
                <= max_unlocked(stages),
        max_unlocked(stages) == 0 || exists|i: int|
            0 <= i < stages.len() && (#[trigger] stages[i]).unlocked && stages[i].id.0
                == max_unlocked(stages),
    decreases stages.len(),
{
    if stages.len() > 0 {
        let rest = stages.drop_last();
        lemma_max_unlocked_is_max(rest);
        assert forall|i: int|
            0 <= i < stages.len() && (#[trigger] stages[i]).unlocked implies stages[i].id.0
                <= max_unlocked(stages) by {
            if i < stages.len() - 1 {
                assert(stages[i] == rest[i]);
            }
        }
        if max_unlocked(stages) != 0 {
            if max_unlocked(stages) == max_unlocked(rest) {
                let j = choose|j: int|
                    0 <= j < rest.len() && (#[trigger] rest[j]).unlocked && rest[j].id.0
                        == max_unlocked(rest);
                assert(stages[j] == rest[j]);
            } else {
                assert(stages[stages.len() - 1] == stages.last());
            }
        }
    }
}

// ---------------------------------------------------------------------------
// How far the player has come.
// ---------------------------------------------------------------------------

/// The stages the player may enter: every stage numbered up to a bound,
/// that bound included.
pub struct StageProgress {
    unlocked_until: StageId,
}

/// The bound after unlocking up to `target` from `before`: it only grows.
pub open spec fn spec_after_unlock(before: usize, target: usize) -> usize {
    if target > before {
        target
    } else {
        before
    }
}

impl Default for StageProgress {
    /// Only the stage numbered zero is open.
    fn default() -> (r: StageProgress)
        ensures
            r.unlocked_until() == 0,
    {
        StageProgress { unlocked_until: StageId(0) }
    }
}

impl StageProgress {
    /// The highest stage number the player may enter.
    pub closed spec fn unlocked_until(&self) -> usize {
        self.unlocked_until.0
    }

    /// Progress that opens every stage up to `stage_id`.
    pub fn from_unlocked_until(stage_id: StageId) -> (r: StageProgress)
        ensures
            r.unlocked_until() == stage_id.0,
    {
        StageProgress { unlocked_until: stage_id }
    }

    /// The highest stage number the player may enter.
    pub fn unlocked_until_id(&self) -> (r: StageId)
        ensures
            r.0 == self.unlocked_until(),
    {
        self.unlocked_until
    }

    /// Whether the player may enter the stage numbered `stage_id`.
    pub fn is_unlocked(&self, stage_id: StageId) -> (r: bool)
        ensures
            r == (stage_id.0 <= self.unlocked_until()),
    {
        stage_id.0 <= self.unlocked_until.0
    }

    /// Opens every stage up to `stage_id`; says whether anything changed.
    pub fn unlock_until(&mut self, stage_id: StageId) -> (r: bool)
        ensures
            r == (stage_id.0 > old(self).unlocked_until()),
            final(self).unlocked_until() == spec_after_unlock(old(self).unlocked_until(), stage_id.0),
    {
        if stage_id.0 > self.unlocked_until.0 {
            self.unlocked_until = stage_id;
            true
        } else {
            false
        }
    }

    /// The progress the game starts from, given what was read back from
    /// storage (nothing, when there was no file or it could not be read):
    /// every stage the catalog marks unlocked is opened on top of it.
    pub fn from_loaded(loaded: Option<StageProgress>, catalog: &StageCatalog) -> (r: StageProgress)
        ensures
            r.unlocked_until() == spec_after_unlock(
                match loaded {
                    Some(p) => p.unlocked_until(),
                    None => 0,
                },
                max_unlocked(catalog.stages@),
            ),
    {
        let mut me = match loaded {
            Some(p) => p,
            None => StageProgress::default(),
        };
        let from_catalog = catalog.max_unlocked_stage_id();
        let target = if from_catalog.0 > me.unlocked_until.0 {
            from_catalog.0
        } else {
            me.unlocked_until.0
        };
        me.unlock_until(StageId(target));
        me
    }
}

/// Unlocking never closes a stage, and opens every stage up to the target.
pub proof fn lemma_unlock_monotone(before: usize, target: usize, stage: usize)
    ensures
        stage <= before ==> stage <= spec_after_unlock(before, target),
        stage <= target ==> stage <= spec_after_unlock(before, target),
        spec_after_unlock(spec_after_unlock(before, target), target) == spec_after_unlock(
            before,
            target,
        ),
{
}

// ---------------------------------------------------------------------------
// The scripts the player wrote, per language and stage.
// ---------------------------------------------------------------------------

/// A stage's saved program as older save files may hold it: one text, or a
/// list of texts.
pub enum StoredScript {
    Single(String),
    Multiple(Vec<String>),
}

impl StoredScript {
    /// The saved program as a list of texts.
    pub fn into_codes(self) -> (r: Vec<String>)
        ensures
            match self {
                StoredScript::Single(s) => r@ == seq![s],
                StoredScript::Multiple(v) => r@ == v@,
            },
    {
        match self {
            StoredScript::Single(s) => {
                let mut v: Vec<String> = Vec::new();
                v.push(s);
                v
            },
            StoredScript::Multiple(v) => v,
        }
    }
}

/// The program stored last under `key`.
pub open spec fn scripts_lookup(entries: Seq<(Language, StageId, Vec<String>)>, key: (Language, usize)) -> Option<Seq<String>>
    decreases entries.len(),
{
    if entries.len() == 0 {
        None
    } else if (entries.last().0, entries.last().1.0) == key {
        Some(entries.last().2@)
    } else {
        scripts_lookup(entries.drop_last(), key)
    }
}

/// The latest program the player wrote for each language and stage.
pub struct StageScripts {
    entries: Vec<(Language, StageId, Vec<String>)>,
}

impl View for StageScripts {
    type V = Map<(Language, usize), Seq<String>>;

    closed spec fn view(&self) -> Map<(Language, usize), Seq<String>> {
        Map::new(
            |k: (Language, usize)| scripts_lookup(self.entries@, k) is Some,
            |k: (Language, usize)| scripts_lookup(self.entries@, k)->0,
        )
    }
}

proof fn lemma_scripts_lookup_none(entries: Seq<(Language, StageId, Vec<String>)>, key: (Language, usize))
    requires
        forall|i: int| 0 <= i < entries.len() ==> ((#[trigger] entries[i]).0, entries[i].1.0) != key,
    ensures
        scripts_lookup(entries, key) is None,
    decreases entries.len(),
{
    if entries.len() > 0 {
        let rest = entries.drop_last();
        assert(entries.last() == entries[entries.len() - 1]);
        assert forall|i: int| 0 <= i < rest.len() implies ((#[trigger] rest[i]).0, rest[i].1.0) != key by {
            assert(rest[i] == entries[i]);
        }
        lemma_scripts_lookup_none(rest, key);
    }
}

proof fn lemma_scripts_lookup_found(entries: Seq<(Language, StageId, Vec<String>)>, i: int)
    requires
        0 <= i < entries.len(),
        forall|j: int| i < j < entries.len() ==> ((#[trigger] entries[j]).0, entries[j].1.0) != (entries[i].0, entries[i].1.0),
    ensures
        scripts_lookup(entries, (entries[i].0, entries[i].1.0)) == Some(entries[i].2@),
    decreases entries.len(),
{
    if i < entries.len() - 1 {
        let rest = entries.drop_last();
        assert(entries.last() == entries[entries.len() - 1]);
        assert(rest[i] == entries[i]);
        assert forall|j: int| i < j < rest.len() implies ((#[trigger] rest[j]).0, rest[j].1.0) != (rest[i].0, rest[i].1.0) by {
            assert(rest[j] == entries[j]);
        }
        lemma_scripts_lookup_found(rest, i);
    }
}

proof fn lemma_scripts_lookup_update(
    entries: Seq<(Language, StageId, Vec<String>)>,
    i: int,
    e: (Language, StageId, Vec<String>),
    key: (Language, usize),
)
    requires
        0 <= i < entries.len(),
        (entries[i].0, entries[i].1.0) == (e.0, e.1.0),
        (e.0, e.1.0) != key,
    ensures
        scripts_lookup(entries.update(i, e), key) == scripts_lookup(entries, key),
    decreases entries.len(),
{
    if i < entries.len() - 1 {
        assert(entries.update(i, e).drop_last() =~= entries.drop_last().update(i, e));
        lemma_scripts_lookup_update(entries.drop_last(), i, e, key);
    } else {
        assert(entries.update(i, e).drop_last() =~= entries.drop_last());
    }
}

impl StageScripts {
    /// No program saved for any stage.
    pub fn new() -> (r: StageScripts)
        ensures
            r@ == Map::<(Language, usize), Seq<String>>::empty(),
    {
        let r = StageScripts { entries: Vec::new() };
        proof {
            assert(r@ =~= Map::<(Language, usize), Seq<String>>::empty());
        }
        r
    }

    /// The program saved for `stage_id` in `lang`.
    pub fn stage_codes(&self, lang: Language, stage_id: StageId) -> (r: Option<&Vec<String>>)
        ensures
            match r {
                Some(v) => self@.contains_key((lang, stage_id.0)) && v@ == self@[(lang, stage_id.0)],
                None => !self@.contains_key((lang, stage_id.0)),
            },
    {
        let mut i: usize = self.entries.len();
        while i > 0
            invariant
                i <= self.entries@.len(),
                forall|j: int| i <= j < self.entries@.len() ==> ((#[trigger] self.entries@[j]).0, self.entries@[j].1.0) != (lang, stage_id.0),
            decreases i,
        {
            i -= 1;
            if self.entries[i].0 == lang && self.entries[i].1.0 == stage_id.0 {
                proof {
                    lemma_scripts_lookup_found(self.entries@, i as int);
                }
                return Some(&self.entries[i].2);
            }
        }
        proof {
            lemma_scripts_lookup_none(self.entries@, (lang, stage_id.0));
        }
        None
    }

    /// Saves `codes` as the program for `stage_id` in `lang`, replacing the
    /// one saved before.
    pub fn set_stage_codes(&mut self, lang: Language, stage_id: StageId, codes: Vec<String>)
        ensures
            final(self)@ == old(self)@.insert((lang, stage_id.0), codes@),
    {
        let ghost key = (lang, stage_id.0);
        let ghost cv = codes@;
        let mut i: usize = self.entries.len();
        while i > 0
            invariant
                i <= self.entries@.len(),
                key == (lang, stage_id.0),
                cv == codes@,
                self.entries@ == old(self).entries@,
                forall|j: int| i <= j < self.entries@.len() ==> ((#[trigger] self.entries@[j]).0, self.entries@[j].1.0) != key,
            decreases i,
        {
            i -= 1;
            if self.entries[i].0 == lang && self.entries[i].1.0 == stage_id.0 {
                let ghost before = self.entries@;
                self.entries.set(i, (lang, stage_id, codes));
                proof {
                    let after = self.entries@;
                    assert(after == before.update(i as int, after[i as int]));
                    assert forall|j: int| i < j < after.len() implies ((#[trigger] after[j]).0, after[j].1.0) != (after[i as int].0, after[i as int].1.0) by {
                        assert(after[j] == before[j]);
                    }
                    lemma_scripts_lookup_found(after, i as int);
                    assert forall|k: (Language, usize)| k != key implies scripts_lookup(after, k) == scripts_lookup(before, k) by {
                        lemma_scripts_lookup_update(before, i as int, after[i as int], k);
                    }
                    assert(self@ =~= old(self)@.insert(key, cv));
                }
                return;
            }
        }
        let ghost before = self.entries@;
        self.entries.push((lang, stage_id, codes));
        proof {
            let after = self.entries@;
            assert(after.drop_last() =~= before);
            assert forall|k: (Language, usize)| k != key implies scripts_lookup(after, k) == scripts_lookup(before, k) by {
                assert(after.last() == after[after.len() - 1]);
            }
            assert(self@ =~= old(self)@.insert(key, cv));
        }
    }

    /// The languages and stages that have a saved program, each once.
    pub fn saved_keys(&self) -> (r: Vec<(Language, StageId)>)
        ensures
            forall|k: (Language, usize)| self@.contains_key(k) <==> exists|i: int| 0 <= i < r@.len() && (#[trigger] r@[i]).0 == k.0 && r@[i].1.0 == k.1,
    {
        let mut out: Vec<(Language, StageId)> = Vec::new();
        let mut i: usize = 0;
        while i < self.entries.len()
            invariant
                i <= self.entries@.len(),
                out@.len() == i,
                forall|j: int| 0 <= j < i ==> (#[trigger] out@[j]).0 == self.entries@[j].0 && out@[j].1 == self.entries@[j].1,
            decreases self.entries@.len() - i,
        {
            out.push((self.entries[i].0, self.entries[i].1));
            i += 1;
        }
        proof {
            assert forall|k: (Language, usize)| self@.contains_key(k) <==> exists|i: int| 0 <= i < out@.len() && (#[trigger] out@[i]).0 == k.0 && out@[i].1.0 == k.1 by {
                if self@.contains_key(k) {
                    if forall|j: int| 0 <= j < self.entries@.len() ==> ((#[trigger] self.entries@[j]).0, self.entries@[j].1.0) != k {
                        lemma_scripts_lookup_none(self.entries@, k);
                    }
                    let j = choose|j: int| 0 <= j < self.entries@.len() && ((#[trigger] self.entries@[j]).0, self.entries@[j].1.0) == k;
                    assert(out@[j].0 == k.0 && out@[j].1.0 == k.1);
                }
                if exists|i: int| 0 <= i < out@.len() && (#[trigger] out@[i]).0 == k.0 && out@[i].1.0 == k.1 {
                    let j = choose|i: int| 0 <= i < out@.len() && (#[trigger] out@[i]).0 == k.0 && out@[i].1.0 == k.1;
                    lemma_scripts_lookup_some(self.entries@, j, k);
                }
            }
        }
        out
    }
}

proof fn lemma_scripts_lookup_some(entries: Seq<(Language, StageId, Vec<String>)>, j: int, key: (Language, usize))
    requires
        0 <= j < entries.len(),
        (entries[j].0, entries[j].1.0) == key,
    ensures
        scripts_lookup(entries, key) is Some,
    decreases entries.len(),
{
    if j < entries.len() - 1 {
        let rest = entries.drop_last();
        assert(rest[j] == entries[j]);
        if (entries.last().0, entries.last().1.0) != key {
            lemma_scripts_lookup_some(rest, j, key);
        }
    }
}

/// A program read back after it was saved is the program saved, and saving
/// for one stage leaves every other stage's program as it was.
pub proof fn lemma_scripts_read_after_write(
    before: Map<(Language, usize), Seq<String>>,
    key: (Language, usize),
    codes: Seq<String>,
    other: (Language, usize),
)
    ensures
        before.insert(key, codes).contains_key(key),
        before.insert(key, codes)[key] == codes,
        other != key ==> (before.insert(key, codes).contains_key(other) == before.contains_key(other)),
        other != key && before.contains_key(other) ==> before.insert(key, codes)[other] == before[other],
{
}

// ---------------------------------------------------------------------------
// Which stage is being played.
// ---------------------------------------------------------------------------

/// The stage being played, and whether the scene still has to be rebuilt
/// for it.
pub struct StageProgressionState {
    current_stage: Option<StageMeta>,
    pending_reload: bool,
}

impl StageProgressionState {
    /// The stage being played, as plain values.
    pub closed spec fn current(&self) -> Option<(usize, Seq<char>, bool)> {
        match self.current_stage {
            Some(m) => Some(meta_view(m)),
            None => None,
        }
    }

    /// Whether the scene still has to be rebuilt.
    pub closed spec fn reload_pending(&self) -> bool {
        self.pending_reload
    }

    /// No stage chosen yet, nothing to rebuild.
    pub fn new() -> (r: StageProgressionState)
        ensures
            r.current() is None,
            !r.reload_pending(),
    {
        StageProgressionState { current_stage: None, pending_reload: false }
    }

    /// The number of the stage being played, zero when there is none.
    pub fn current_stage_id(&self) -> (r: StageId)
        ensures
            r.0 == match self.current() {
                Some(m) => m.0,
                None => 0,
            },
    {
        match &self.current_stage {
            Some(m) => m.id,
            None => StageId(0),
        }
    }

    /// The stage being played.
    pub fn current_stage(&self) -> (r: Option<&StageMeta>)
        ensures
            match r {
                Some(m) => self.current() == Some(meta_view(*m)),
                None => self.current() is None,
            },
    {
        self.current_stage.as_ref()
    }

    /// Moves on to the stage that follows the current one in `catalog`, and
    /// asks for the scene to be rebuilt; says whether there was one.
    pub fn advance(&mut self, stage_catalog: &StageCatalog) -> (r: bool)
        requires
            old(self).current() matches Some(m) ==> m.0 < usize::MAX,
        ensures
            match old(self).current() {
                None => !r && final(self).current() == old(self).current() && final(self).reload_pending()
                    == old(self).reload_pending(),
                Some(m) => if has_stage(stage_catalog.stages@, (m.0 + 1) as usize) {
                    &&& r
                    &&& final(self).reload_pending()
                    &&& exists|i: int|
                        first_stage_at(stage_catalog.stages@, (m.0 + 1) as usize, i) && final(self).current()
                            == Some(meta_view(stage_catalog.stages@[i]))
                } else {
                    &&& !r
                    &&& final(self).current() == old(self).current()
                    &&& final(self).reload_pending() == old(self).reload_pending()
                },
            },
    {
        let id = match &self.current_stage {
            None => {
                return false;
            },
            Some(m) => m.id,
        };
        match stage_catalog.next_stage(id) {
            None => false,
            Some(next) => {
                self.current_stage = Some(next.duplicate());
                self.pending_reload = true;
                true
            },
        }
    }

    /// Makes `stage` the stage being played and asks for the scene to be
    /// rebuilt.
    pub fn select_stage(&mut self, stage: &StageMeta)
        ensures
            final(self).current() == Some(meta_view(*stage)),
            final(self).reload_pending(),
    {
        self.current_stage = Some(stage.duplicate());
        self.pending_reload = true;
    }

    /// Marks the scene as rebuilt.
    pub fn clear_reload(&mut self)
        ensures
            final(self).current() == old(self).current(),
            !final(self).reload_pending(),
    {
        self.pending_reload = false;
    }

    /// Whether the scene has to be rebuilt; the request is consumed.
    pub fn take_pending_reload(&mut self) -> (r: bool)
        ensures
            r == old(self).reload_pending(),
            final(self).current() == old(self).current(),
            !final(self).reload_pending(),
    {
        if self.pending_reload {
            self.pending_reload = false;
            true
        } else {
            false
        }
    }

    /// What follows a cleared stage: the stage after it is opened in
    /// `progress`, and play moves on to it when the catalog has one. Says
    /// whether play moved on.
    pub fn advance_after_clear(&mut self, progress: &mut StageProgress, stage_catalog: &StageCatalog) -> (r: bool)
        requires
            old(self).current() matches Some(m) ==> m.0 < usize::MAX,
        ensures
            final(progress).unlocked_until() == spec_after_unlock(
                old(progress).unlocked_until(),
                (match old(self).current() {
                    Some(m) => m.0,
                    None => 0,
                } + 1) as usize,
            ),
            match old(self).current() {
                None => !r && final(self).current() == old(self).current(),
                Some(m) => (r <==> has_stage(stage_catalog.stages@, (m.0 + 1) as usize)) && (r
                    ==> final(self).reload_pending()) && (!r ==> final(self).current() == old(self).current()),
            },
    {
        let id = self.current_stage_id();
        progress.unlock_until(StageId(id.0 + 1));
        self.advance(stage_catalog)
    }
}

} // verus!
