use vstd::prelude::*;
use vstd::string::*;

use crate::text::{ascii_lower_seq, concat_str, str_eq, to_ascii_lowercase};

verus! {

/// A direction a script can move (or dig) the stone in.
#[derive(Debug, Clone, Copy, PartialEq, Eq, Structural)]
pub enum MoveDirection {
    Left,
    Top,
    Right,
    Down,
}

/// The direction a lower-case name stands for: `left`, `top` or `up`,
/// `right`, `down`.
pub open spec fn spec_direction_named(name: Seq<char>) -> Option<MoveDirection> {
    if name == "left"@ {
        Some(MoveDirection::Left)
    } else if name == "top"@ || name == "up"@ {
        Some(MoveDirection::Top)
    } else if name == "right"@ {
        Some(MoveDirection::Right)
    } else if name == "down"@ {
        Some(MoveDirection::Down)
    } else {
        None
    }
}

/// The name a direction is shown with.
pub open spec fn spec_direction_text(d: MoveDirection) -> Seq<char> {
    match d {
        MoveDirection::Left => "left"@,
        MoveDirection::Top => "top"@,
        MoveDirection::Right => "right"@,
        MoveDirection::Down => "down"@,
    }
}

impl MoveDirection {
    /// Reads a direction name, ignoring ASCII case.
    pub fn from_str(value: &str) -> (r: Option<MoveDirection>)
        ensures
            r == spec_direction_named(ascii_lower_seq(value@)),
    {
        let lower = to_ascii_lowercase(value);
        let name = lower.as_str();
        if str_eq(name, "left") {
            Some(MoveDirection::Left)
        } else if str_eq(name, "top") || str_eq(name, "up") {
            Some(MoveDirection::Top)
        } else if str_eq(name, "right") {
            Some(MoveDirection::Right)
        } else if str_eq(name, "down") {
            Some(MoveDirection::Down)
        } else {
            None
        }
    }

    /// The name the direction is shown with.
    pub fn as_str(&self) -> (r: &'static str)
        ensures
            r@ == spec_direction_text(*self),
    {
        match self {
            MoveDirection::Left => "left",
            MoveDirection::Top => "top",
            MoveDirection::Right => "right",
            MoveDirection::Down => "down",
        }
    }
}

/// Reading back the shown name of a direction gives the direction again.
pub proof fn lemma_direction_text_round_trip(d: MoveDirection)
    ensures
        spec_direction_named(ascii_lower_seq(spec_direction_text(d))) == Some(d),
{
    reveal_strlit("left");
    reveal_strlit("top");
    reveal_strlit("up");
    reveal_strlit("right");
    reveal_strlit("down");
    let t = spec_direction_text(d);
    assert(ascii_lower_seq(t) =~= t);
    assert("left"@.len() == 4 && "down"@.len() == 4 && "top"@.len() == 3);
    assert("up"@.len() == 2 && "right"@.len() == 5);
    assert("left"@[0] == 'l' && "down"@[0] == 'd');
}

/// A command a script hands to the stone. A sleep's length in seconds is
/// held as the bit pattern of its `f32`.
#[derive(Debug, Clone, Copy, PartialEq, Eq, Structural)]
pub enum ScriptCommand {
    Move(MoveDirection),
    Sleep(u32),
    Dig(MoveDirection),
    Place(MoveDirection),
}

/// Errors met while running a player's script.
#[derive(Debug)]
pub enum ScriptExecutionError {
    EmptyScript,
    InvalidMoveDirection { direction: String },
    InvalidSleepDuration,
    Engine(String),
    UnsupportedLanguage(String),
    InvalidCommand(String),
}

/// The text shown for an error.
pub open spec fn spec_error_message(e: ScriptExecutionError) -> Seq<char> {
    match e {
        ScriptExecutionError::EmptyScript => "Script is empty."@,
        ScriptExecutionError::InvalidMoveDirection { direction } => "Invalid move direction: "@ + direction@,
        ScriptExecutionError::InvalidSleepDuration => "sleep duration must be zero or greater."@,
        ScriptExecutionError::Engine(msg) => "Script runtime error: "@ + msg@,
        ScriptExecutionError::UnsupportedLanguage(lang) => "Unsupported script language: "@ + lang@,
        ScriptExecutionError::InvalidCommand(msg) => "Invalid command: "@ + msg@,
    }
}

impl ScriptExecutionError {
    /// The text shown for the error.
    pub fn message(&self) -> (r: String)
        ensures
            r@ == spec_error_message(*self),
    {
        match self {
            ScriptExecutionError::EmptyScript => "Script is empty.".to_owned(),
            ScriptExecutionError::InvalidMoveDirection { direction } => concat_str(
                "Invalid move direction: ",
                direction.as_str(),
            ),
            ScriptExecutionError::InvalidSleepDuration => "sleep duration must be zero or greater.".to_owned(),
            ScriptExecutionError::Engine(msg) => concat_str("Script runtime error: ", msg.as_str()),
            ScriptExecutionError::UnsupportedLanguage(lang) => concat_str(
                "Unsupported script language: ",
                lang.as_str(),
            ),
            ScriptExecutionError::InvalidCommand(msg) => concat_str("Invalid command: ", msg.as_str()),
        }
    }
}

/// Key under which the state tells whether the player touches the stone.
pub const PLAYER_TOUCHED_STATE_KEY: &'static str = "player-touched";

/// Key under which the state holds a random number for the script.
pub const RAND_STATE_KEY: &'static str = "rand";

/// A value a script can read from the game state. A number is held as the
/// bit pattern of its `f64`.
#[derive(Debug, Clone, Copy, PartialEq, Eq, Structural)]
pub enum ScriptStateValue {
    Bool(bool),
    Float(u64),
}

impl ScriptStateValue {
    /// The value as a flag, when it is one.
    pub fn as_bool(&self) -> (r: Option<bool>)
        ensures
            r == (match *self {
                ScriptStateValue::Bool(b) => Some(b),
                ScriptStateValue::Float(_) => None,
            }),
    {
        match self {
            ScriptStateValue::Bool(b) => Some(*b),
            ScriptStateValue::Float(_) => None,
        }
    }
}

/// The value stored last under `k`.
pub open spec fn lookup(entries: Seq<(String, ScriptStateValue)>, k: Seq<char>) -> Option<ScriptStateValue>
    decreases entries.len(),
{
    if entries.len() == 0 {
        None
    } else if entries.last().0@ == k {
        Some(entries.last().1)
    } else {
        lookup(entries.drop_last(), k)
    }
}

pub open spec fn keys_unique(entries: Seq<(String, ScriptStateValue)>) -> bool {
    forall|i: int, j: int| 0 <= i < j < entries.len() ==> (#[trigger] entries[i]).0@ != (#[trigger] entries[j]).0@
}

/// What the game tells a running script: named flags and numbers.
pub struct ScriptState {
    entries: Vec<(String, ScriptStateValue)>,
}

impl View for ScriptState {
    type V = Map<Seq<char>, ScriptStateValue>;

    closed spec fn view(&self) -> Map<Seq<char>, ScriptStateValue> {
        Map::new(|k: Seq<char>| lookup(self.entries@, k) is Some, |k: Seq<char>| lookup(self.entries@, k)->0)
    }
}

proof fn lemma_lookup_none(entries: Seq<(String, ScriptStateValue)>, k: Seq<char>)
    requires
        forall|i: int| 0 <= i < entries.len() ==> (#[trigger] entries[i]).0@ != k,
    ensures
        lookup(entries, k) is None,
    decreases entries.len(),
{
    if entries.len() > 0 {
        lemma_lookup_none(entries.drop_last(), k);
    }
}

proof fn lemma_lookup_found(entries: Seq<(String, ScriptStateValue)>, i: int)
    requires
        keys_unique(entries),
        0 <= i < entries.len(),
    ensures
        lookup(entries, entries[i].0@) == Some(entries[i].1),
    decreases entries.len(),
{
    if i < entries.len() - 1 {
        assert(entries.last() == entries[entries.len() - 1]);
        lemma_lookup_found(entries.drop_last(), i);
    }
}

proof fn lemma_lookup_update(entries: Seq<(String, ScriptStateValue)>, i: int, e: (String, ScriptStateValue), k: Seq<char>)
    requires
        0 <= i < entries.len(),
        entries[i].0@ == e.0@,
        e.0@ != k,
    ensures
        lookup(entries.update(i, e), k) == lookup(entries, k),
    decreases entries.len(),
{
    if entries.len() > 0 {
        if i < entries.len() - 1 {
            assert(entries.update(i, e).drop_last() =~= entries.drop_last().update(i, e));
            lemma_lookup_update(entries.drop_last(), i, e, k);
        } else {
            assert(entries.update(i, e).drop_last() =~= entries.drop_last());
        }
    }
}

impl ScriptState {
    /// No key is stored twice.
    #[verifier::type_invariant]
    spec fn keys_stay_unique(&self) -> bool {
        keys_unique(self.entries@)
    }

    /// An empty state.
    pub fn new() -> (r: ScriptState)
        ensures
            r@ == Map::<Seq<char>, ScriptStateValue>::empty(),
    {
        let r = ScriptState { entries: Vec::new() };
        proof {
            assert(r@ =~= Map::<Seq<char>, ScriptStateValue>::empty());
        }
        r
    }

    /// The value stored under `key`.
    pub fn get(&self, key: &str) -> (r: Option<ScriptStateValue>)
        ensures
            r == (if self@.contains_key(key@) {
                Some(self@[key@])
            } else {
                None
            }),
    {
        proof {
            use_type_invariant(self);
        }
        let mut i: usize = 0;
        while i < self.entries.len()
            invariant
                i <= self.entries.len(),
                keys_unique(self.entries@),
                forall|k: int| 0 <= k < i ==> (#[trigger] self.entries@[k]).0@ != key@,
            decreases self.entries.len() - i,
        {
            if str_eq(self.entries[i].0.as_str(), key) {
                proof {
                    lemma_lookup_found(self.entries@, i as int);
                }
                return Some(self.entries[i].1);
            }
            i += 1;
        }
        proof {
            lemma_lookup_none(self.entries@, key@);
        }
        None
    }

    /// Stores `value` under `key`, replacing what was there.
    pub fn insert(&mut self, key: String, value: ScriptStateValue)
        ensures
            final(self)@ == old(self)@.insert(key@, value),
    {
        proof {
            use_type_invariant(&*self);
        }
        let ghost before = self.entries@;
        let ghost kv = key@;
        let mut entries: Vec<(String, ScriptStateValue)> = Vec::new();
        std::mem::swap(&mut entries, &mut self.entries);
        let mut i: usize = 0;
        while i < entries.len()
            invariant
                i <= entries.len(),
                entries@ == before,
                before == old(self).entries@,
                keys_unique(before),
                kv == key@,
                forall|k: int| 0 <= k < i ==> (#[trigger] entries@[k]).0@ != kv,
            decreases entries.len() - i,
        {
            if str_eq(entries[i].0.as_str(), key.as_str()) {
                entries.set(i, (key, value));
                proof {
                    let after = entries@;
                    assert(after == before.update(i as int, after[i as int]));
                    assert forall|a: int, b: int| 0 <= a < b < after.len() implies (#[trigger] after[a]).0@
                        != (#[trigger] after[b]).0@ by {
                        assert(before[a].0@ != before[b].0@);
                    }
                    lemma_lookup_found(after, i as int);
                    assert forall|k: Seq<char>| k != kv implies lookup(after, k) == lookup(before, k) by {
                        lemma_lookup_update(before, i as int, after[i as int], k);
                    }
                }
                self.entries = entries;
                proof {
                    assert(self@ =~= old(self)@.insert(kv, value));
                }
                return;
            }
            i += 1;
        }
        proof {
            lemma_lookup_none(before, kv);
        }
        entries.push((key, value));
        proof {
            let after = entries@;
            assert(after.drop_last() =~= before);
            assert forall|a: int, b: int| 0 <= a < b < after.len() implies (#[trigger] after[a]).0@
                != (#[trigger] after[b]).0@ by {
                if b == after.len() - 1 {
                    assert(before[a].0@ != kv);
                } else {
                    assert(before[a].0@ != before[b].0@);
                }
            }
        }
        self.entries = entries;
        proof {
            assert(self@ =~= old(self)@.insert(kv, value));
        }
    }

    /// An independent copy of the state.
    pub fn duplicate(&self) -> (r: ScriptState)
        ensures
            r@ == self@,
    {
        proof {
            use_type_invariant(self);
        }
        let mut entries: Vec<(String, ScriptStateValue)> = Vec::new();
        let mut i: usize = 0;
        while i < self.entries.len()
            invariant
                i <= self.entries.len(),
                entries@.len() == i,
                forall|k: int| 0 <= k < i ==> (#[trigger] entries@[k]).0@ == self.entries@[k].0@ && entries@[k].1
                    == self.entries@[k].1,
            decreases self.entries.len() - i,
        {
            let key = self.entries[i].0.clone();
            let value = self.entries[i].1;
            entries.push((key, value));
            i += 1;
        }
        let r = ScriptState { entries };
        proof {
            assert forall|k: Seq<char>| lookup(r.entries@, k) == lookup(self.entries@, k) by {
                lemma_lookup_same(r.entries@, self.entries@, k);
            }
            assert forall|a: int, b: int| 0 <= a < b < r.entries@.len() implies (#[trigger] r.entries@[a]).0@
                != (#[trigger] r.entries@[b]).0@ by {
                assert(self.entries@[a].0@ != self.entries@[b].0@);
            }
            assert(r@ =~= self@);
        }
        r
    }
}

proof fn lemma_lookup_same(a: Seq<(String, ScriptStateValue)>, b: Seq<(String, ScriptStateValue)>, k: Seq<char>)
    requires
        a.len() == b.len(),
        forall|i: int| 0 <= i < a.len() ==> (#[trigger] a[i]).0@ == b[i].0@ && a[i].1 == b[i].1,
    ensures
        lookup(a, k) == lookup(b, k),
    decreases a.len(),
{
    if a.len() > 0 {
        assert(a.last() == a[a.len() - 1]);
        lemma_lookup_same(a.drop_last(), b.drop_last(), k);
    }
}

/// A value read back from the state is the value last stored under its key.
pub proof fn lemma_state_read_after_write(
    before: Map<Seq<char>, ScriptStateValue>,
    key: Seq<char>,
    value: ScriptStateValue,
    other: Seq<char>,
)
    ensures
        before.insert(key, value)[key] == value,
        other != key ==> before.insert(key, value).contains_key(other) == before.contains_key(other),
        other != key && before.contains_key(other) ==> before.insert(key, value)[other] == before[other],
{
}

/// The state a running script reads, kept up to date by the game.
pub struct SharedScriptState {
    inner: ScriptState,
}

/// Whether a state says the player touches the stone; absent or not a flag
/// counts as not touched.
pub open spec fn spec_touched(state: Map<Seq<char>, ScriptStateValue>) -> bool {
    let key = PLAYER_TOUCHED_STATE_KEY@;
    state.contains_key(key) && state[key] == ScriptStateValue::Bool(true)
}

impl SharedScriptState {
    /// The state the script currently reads.
    pub closed spec fn state(&self) -> Map<Seq<char>, ScriptStateValue> {
        self.inner@
    }

    /// A shared state holding nothing.
    pub fn new() -> (r: SharedScriptState)
        ensures
            r.state() == Map::<Seq<char>, ScriptStateValue>::empty(),
    {
        SharedScriptState { inner: ScriptState::new() }
    }

    /// Replaces what the script reads with a copy of `state`.
    pub fn write(&mut self, state: &ScriptState)
        ensures
            final(self).state() == state@,
    {
        self.inner = state.duplicate();
    }

    /// Whether the player touches the stone, as last written.
    pub fn touched(&self) -> (r: bool)
        ensures
            r == spec_touched(self.state()),
    {
        let value = self.inner.get(PLAYER_TOUCHED_STATE_KEY);
        match value {
            Some(v) => match v.as_bool() {
                Some(b) => b,
                None => false,
            },
            None => false,
        }
    }

    /// The flag stored under `key`; absent or not a flag counts as false.
    pub fn flag(&self, key: &str) -> (r: bool)
        ensures
            r == (self.state().contains_key(key@) && self.state()[key@] == ScriptStateValue::Bool(true)),
    {
        let value = self.inner.get(key);
        match value {
            Some(v) => match v.as_bool() {
                Some(b) => b,
                None => false,
            },
            None => false,
        }
    }
}

/// Key under which the state tells whether the stone can move towards
/// `direction`: `is-empty-` and the lower-case direction name.
pub fn is_empty_key(direction: &str) -> (r: String)
    ensures
        r@ == "is-empty-"@ + ascii_lower_seq(direction@),
{
    let lower = to_ascii_lowercase(direction);
    concat_str("is-empty-", lower.as_str())
}

} // verus!
