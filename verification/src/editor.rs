use vstd::prelude::*;

use crate::script_engine::Language;
use crate::script_types::{ScriptState, ScriptStateValue, PLAYER_TOUCHED_STATE_KEY, RAND_STATE_KEY};
use crate::stage::StageId;
use crate::text::{concat_str, decimal_digits, format_usize};

verus! {

// ---------------------------------------------------------------------------
// Dialogs tied to a stage.
// ---------------------------------------------------------------------------

/// The tutorial shown when a stage opens: keys of its title and its text.
pub struct TutorialDialog {
    pub title_key: String,
    pub body_key: String,
}

/// The key `stage`, the stage number, then `suffix`.
pub open spec fn spec_stage_key(id: usize, suffix: Seq<char>) -> Seq<char> {
    "stage"@ + decimal_digits(id as nat) + suffix
}

fn stage_key(id: usize, suffix: &str) -> (r: String)
    ensures
        r@ == spec_stage_key(id, suffix@),
{
    let digits = format_usize(id);
    let head = concat_str("stage", digits.as_str());
    concat_str(head.as_str(), suffix)
}

/// The tutorial of a stage: `stage<N>-name` and `stage<N>-text`. Every stage
/// has one.
pub fn tutorial_dialog_for_stage(stage_id: StageId) -> (r: Option<TutorialDialog>)
    ensures
        r matches Some(d) && d.title_key@ == spec_stage_key(stage_id.0, "-name"@) && d.body_key@
            == spec_stage_key(stage_id.0, "-text"@),
{
    let title_key = stage_key(stage_id.0, "-name");
    let body_key = stage_key(stage_id.0, "-text");
    Some(TutorialDialog { title_key, body_key })
}

/// Key of the command help dialog's title.
pub const COMMAND_HELP_TITLE_KEY: &'static str = "stage-ui-command-help-title";

/// The command help of a stage: its title key, the key of its entry, and
/// whether it is open.
pub struct CommandHelpDialog {
    pub title_key: &'static str,
    pub entry: String,
    pub is_open: bool,
}

impl CommandHelpDialog {
    /// A closed dialog.
    pub fn new(title_key: &'static str, entry: String) -> (r: CommandHelpDialog)
        ensures
            r.title_key@ == title_key@,
            r.entry@ == entry@,
            !r.is_open,
    {
        CommandHelpDialog { title_key, entry, is_open: false }
    }
}

/// The command help of a stage, closed, with the entry
/// `stage<N>-description`. Every stage has one.
pub fn command_help_for_stage(stage_id: StageId) -> (r: Option<CommandHelpDialog>)
    ensures
        r matches Some(d) && d.title_key@ == COMMAND_HELP_TITLE_KEY@ && d.entry@ == spec_stage_key(
            stage_id.0,
            "-description"@,
        ) && !d.is_open,
{
    Some(CommandHelpDialog::new(COMMAND_HELP_TITLE_KEY, stage_key(stage_id.0, "-description")))
}

/// The key under which a stage's localized name is looked up.
pub fn stage_name_key(stage_id: StageId) -> (r: String)
    ensures
        r@ == "stage-name-"@ + decimal_digits(stage_id.0 as nat),
{
    let digits = format_usize(stage_id.0);
    concat_str("stage-name-", digits.as_str())
}

/// The examples the command help fills in, per language: argument name and
/// the code shown for it. A dot is written `<<dot>>`, which the message
/// catalog turns back into a dot.
pub open spec fn spec_command_help_args(language: Language) -> Seq<(Seq<char>, Seq<char>)> {
    match language {
        Language::Rhai => seq![
            ("move-up"@, "move(\"up\");"@),
            ("move-down"@, "move(\"down\");"@),
            ("move-right"@, "move(\"right\");"@),
            ("move-left"@, "move(\"left\");"@),
            ("sleep-1"@, "sleep(1);"@),
            ("sleep-2x5"@, "sleep(2<<dot>>5);"@),
            ("loop-example"@, "loop {\n    move(\"up\");\n}"@),
            ("loop-example2"@, "loop {\n    move(\"up\");\n    sleep(1);\n}"@),
            ("touched-example"@, "loop {\n    if is_touched() {\n        <<dot>><<dot>><<dot>>\n    }\n}"@),
        ],
        Language::Keystone => seq![
            ("move-up"@, "move up"@),
            ("move-down"@, "move down"@),
            ("move-right"@, "move right"@),
            ("move-left"@, "move left"@),
            ("sleep-1"@, "sleep 1"@),
            ("sleep-2x5"@, "sleep 2<<dot>>5"@),
        ],
    }
}

pub open spec fn pair_views(pairs: Seq<(&'static str, &'static str)>) -> Seq<(Seq<char>, Seq<char>)> {
    pairs.map_values(|p: (&'static str, &'static str)| (p.0@, p.1@))
}

/// The examples the command help fills in for `language`.
pub fn command_help_args(language: Language) -> (r: Vec<(&'static str, &'static str)>)
    ensures
        pair_views(r@) == spec_command_help_args(language),
{
    let mut v: Vec<(&'static str, &'static str)> = Vec::new();
    match language {
        Language::Rhai => {
            v.push(("move-up", "move(\"up\");"));
            v.push(("move-down", "move(\"down\");"));
            v.push(("move-right", "move(\"right\");"));
            v.push(("move-left", "move(\"left\");"));
            v.push(("sleep-1", "sleep(1);"));
            v.push(("sleep-2x5", "sleep(2<<dot>>5);"));
            v.push(("loop-example", "loop {\n    move(\"up\");\n}"));
            v.push(("loop-example2", "loop {\n    move(\"up\");\n    sleep(1);\n}"));
            v.push(
                (
                    "touched-example",
                    "loop {\n    if is_touched() {\n        <<dot>><<dot>><<dot>>\n    }\n}",
                ),
            );
        },
        Language::Keystone => {
            v.push(("move-up", "move up"));
            v.push(("move-down", "move down"));
            v.push(("move-right", "move right"));
            v.push(("move-left", "move left"));
            v.push(("sleep-1", "sleep 1"));
            v.push(("sleep-2x5", "sleep 2<<dot>>5"));
        },
    }
    proof {
        assert(pair_views(v@) =~= spec_command_help_args(language));
    }
    v
}

// ---------------------------------------------------------------------------
// The editor's menu.
// ---------------------------------------------------------------------------

/// What the editor's menu offers.
#[derive(Debug, Clone, Copy, PartialEq, Eq, Structural)]
pub enum EditorMenuAction {
    RunScript,
    DecreaseFont,
    IncreaseFont,
    ToggleCommandHelp,
}

/// The menu's entries, in the order they are shown.
pub open spec fn spec_menu_order() -> Seq<EditorMenuAction> {
    seq![
        EditorMenuAction::DecreaseFont,
        EditorMenuAction::IncreaseFont,
        EditorMenuAction::RunScript,
        EditorMenuAction::ToggleCommandHelp,
    ]
}

/// The key of an entry's label; running a script turns its entry into a
/// stop entry.
pub open spec fn spec_label_key(action: EditorMenuAction, is_running: bool) -> Seq<char> {
    match action {
        EditorMenuAction::DecreaseFont => "stage-ui-menu-font-decrease"@,
        EditorMenuAction::IncreaseFont => "stage-ui-menu-font-increase"@,
        EditorMenuAction::RunScript => if is_running {
            "stage-ui-menu-stop"@
        } else {
            "stage-ui-menu-run"@
        },
        EditorMenuAction::ToggleCommandHelp => "stage-ui-command-help-button"@,
    }
}

/// The function key that triggers an entry.
pub open spec fn spec_key_text(action: EditorMenuAction) -> Seq<char> {
    match action {
        EditorMenuAction::DecreaseFont => "F1"@,
        EditorMenuAction::IncreaseFont => "F2"@,
        EditorMenuAction::RunScript => "F3"@,
        EditorMenuAction::ToggleCommandHelp => "F4"@,
    }
}

impl EditorMenuAction {
    /// The menu's entries, in the order they are shown.
    pub fn all() -> (r: Vec<EditorMenuAction>)
        ensures
            r@ == spec_menu_order(),
    {
        let mut v: Vec<EditorMenuAction> = Vec::new();
        v.push(EditorMenuAction::DecreaseFont);
        v.push(EditorMenuAction::IncreaseFont);
        v.push(EditorMenuAction::RunScript);
        v.push(EditorMenuAction::ToggleCommandHelp);
        proof {
            assert(v@ =~= spec_menu_order());
        }
        v
    }

    /// The key of the entry's label.
    pub fn label_key(self, is_running: bool) -> (r: &'static str)
        ensures
            r@ == spec_label_key(self, is_running),
    {
        match self {
            EditorMenuAction::DecreaseFont => "stage-ui-menu-font-decrease",
            EditorMenuAction::IncreaseFont => "stage-ui-menu-font-increase",
            EditorMenuAction::RunScript => {
                if is_running {
                    "stage-ui-menu-stop"
                } else {
                    "stage-ui-menu-run"
                }
            },
            EditorMenuAction::ToggleCommandHelp => "stage-ui-command-help-button",
        }
    }

    /// The function key shown beside the entry; every entry has one.
    pub fn key_text(self) -> (r: Option<&'static str>)
        ensures
            r matches Some(t) && t@ == spec_key_text(self),
    {
        match self {
            EditorMenuAction::DecreaseFont => Some("F1"),
            EditorMenuAction::IncreaseFont => Some("F2"),
            EditorMenuAction::RunScript => Some("F3"),
            EditorMenuAction::ToggleCommandHelp => Some("F4"),
        }
    }
}

// ---------------------------------------------------------------------------
// The tutorial overlay, shown one part at a time.
// ---------------------------------------------------------------------------

/// The parts of a tutorial and the one shown.
pub struct TutorialOverlayPanel {
    chunks: Vec<String>,
    current_chunk: usize,
}

/// Separates a shown part from the hint that more follows.
pub open spec fn more_marker() -> Seq<char> {
    "\n\n"@
}

impl TutorialOverlayPanel {
    pub closed spec fn parts(&self) -> Seq<String> {
        self.chunks@
    }

    pub closed spec fn shown(&self) -> nat {
        self.current_chunk as nat
    }

    /// The first part of `chunks` shown.
    pub fn new(chunks: Vec<String>) -> (r: TutorialOverlayPanel)
        ensures
            r.parts() == chunks@,
            r.shown() == 0,
    {
        TutorialOverlayPanel { chunks, current_chunk: 0 }
    }

    /// Whether a part follows the shown one.
    pub fn has_next(&self) -> (r: bool)
        ensures
            r == (self.shown() + 1 < self.parts().len()),
    {
        self.current_chunk < self.chunks.len() && self.chunks.len() - self.current_chunk > 1
    }

    /// Whether the shown part is the last one.
    pub fn next_is_last(&self) -> (r: bool)
        ensures
            r == (self.shown() + 1 == self.parts().len()),
    {
        self.current_chunk < self.chunks.len() && self.chunks.len() - self.current_chunk == 1
    }

    /// Shows the next part, if there is one; says whether there was.
    pub fn advance(&mut self) -> (r: bool)
        ensures
            r == (old(self).shown() + 1 < old(self).parts().len()),
            final(self).parts() == old(self).parts(),
            final(self).shown() == if r {
                old(self).shown() + 1
            } else {
                old(self).shown()
            },
    {
        if self.has_next() {
            let n = self.chunks.len();
            assert(self.current_chunk + 1 < n);
            self.current_chunk += 1;
            true
        } else {
            false
        }
    }

    /// The shown part; empty when there is none.
    pub fn current_text(&self) -> (r: &str)
        ensures
            r@ == if self.shown() < self.parts().len() {
                self.parts()[self.shown() as int]@
            } else {
                Seq::<char>::empty()
            },
    {
        if self.current_chunk < self.chunks.len() {
            self.chunks[self.current_chunk].as_str()
        } else {
            proof {
                reveal_strlit("");
            }
            ""
        }
    }

    /// The text the overlay shows: the shown part, followed by a blank line
    /// when more parts follow.
    pub fn overlay_text(&self) -> (r: String)
        ensures
            r@ == (if self.shown() < self.parts().len() {
                self.parts()[self.shown() as int]@
            } else {
                Seq::<char>::empty()
            }) + if self.shown() + 1 < self.parts().len() {
                more_marker()
            } else {
                Seq::<char>::empty()
            },
    {
        let text = self.current_text();
        if self.has_next() {
            concat_str(text, "\n\n")
        } else {
            proof {
                reveal_strlit("");
            }
            concat_str(text, "")
        }
    }
}

// ---------------------------------------------------------------------------
// Text with code written between backticks.
// ---------------------------------------------------------------------------

/// `s` cut at every occurrence of `sep`; the pieces between, empty ones
/// included.
pub open spec fn split_on(s: Seq<char>, sep: char) -> Seq<Seq<char>>
    decreases s.len(),
{
    if s.len() == 0 {
        seq![Seq::<char>::empty()]
    } else {
        let init = split_on(s.drop_last(), sep);
        if s.last() == sep {
            init.push(Seq::<char>::empty())
        } else {
            init.update(init.len() - 1, init.last().push(s.last()))
        }
    }
}

proof fn lemma_split_on_nonempty(s: Seq<char>, sep: char)
    ensures
        split_on(s, sep).len() >= 1,
    decreases s.len(),
{
    if s.len() > 0 {
        lemma_split_on_nonempty(s.drop_last(), sep);
    }
}

/// The pieces of `text` between backticks, each marked as code (every
/// other piece, from the second on) or plain text.
pub fn backtick_segments(text: &str) -> (r: Vec<(String, bool)>)
    ensures
        r@.len() == split_on(text@, '`').len(),
        forall|i: int|
            0 <= i < r@.len() ==> (#[trigger] r@[i]).0@ == split_on(text@, '`')[i] && r@[i].1 == (i % 2
                == 1),
{
    let n = text.unicode_len();
    let mut out: Vec<(String, bool)> = Vec::new();
    let mut current = String::new();
    let mut i: usize = 0;
    proof {
        assert(text@.take(0) =~= Seq::<char>::empty());
    }
    while i < n
        invariant
            n == text@.len(),
            i <= n,
            split_on(text@.take(i as int), '`') == Seq::new(out@.len(), |k: int| out@[k].0@).push(current@),
            forall|k: int| 0 <= k < out@.len() ==> (#[trigger] out@[k]).1 == (k % 2 == 1),
        decreases n - i,
    {
        let c = text.get_char(i);
        proof {
            assert(text@.take(i + 1).drop_last() =~= text@.take(i as int));
            assert(text@.take(i + 1).last() == c);
        }
        let ghost before = Seq::new(out@.len(), |k: int| out@[k].0@);
        let ghost cur = current@;
        if c == '`' {
            let highlight = out.len() % 2 == 1;
            out.push((current, highlight));
            current = String::new();
            proof {
                assert(Seq::new(out@.len(), |k: int| out@[k].0@) =~= before.push(cur));
            }
        } else {
            crate::text::push_char(&mut current, c);
            proof {
                assert(before.push(cur).update(before.len() as int, cur.push(c)) =~= before.push(cur.push(c)));
            }
        }
        i += 1;
    }
    let highlight = out.len() % 2 == 1;
    let ghost before = Seq::new(out@.len(), |k: int| out@[k].0@);
    let ghost cur = current@;
    out.push((current, highlight));
    proof {
        assert(text@.take(n as int) =~= text@);
        assert(Seq::new(out@.len(), |k: int| out@[k].0@) =~= before.push(cur));
        assert forall|i: int| 0 <= i < out@.len() implies (#[trigger] out@[i]).0@ == split_on(text@, '`')[i] by {
            assert(out@[i].0@ == Seq::new(out@.len(), |k: int| out@[k].0@)[i]);
        }
    }
    out
}

// ---------------------------------------------------------------------------
// Feeding a stepping script.
// ---------------------------------------------------------------------------

/// What the game does with a stepping script on a frame.
#[derive(Debug, Clone, Copy, PartialEq, Eq, Structural)]
pub enum TickAction {
    /// Controls are off: the running program is dropped.
    DropProgram,
    /// Nothing to do this frame.
    Wait,
    /// Ask the program for its next command.
    Step,
}

/// The decision for a frame: with controls off the program is dropped; a
/// program is only asked for a command while the stone is idle.
pub fn tick_decision(controls_enabled: bool, has_program: bool, stone_busy: bool) -> (r: TickAction)
    ensures
        !controls_enabled ==> r == TickAction::DropProgram,
        controls_enabled && (!has_program || stone_busy) ==> r == TickAction::Wait,
        controls_enabled && has_program && !stone_busy ==> r == TickAction::Step,
{
    if !controls_enabled {
        TickAction::DropProgram
    } else if !has_program || stone_busy {
        TickAction::Wait
    } else {
        TickAction::Step
    }
}

/// What the stone's surroundings look like to a script on one frame:
/// whether the player touches it, a random number, and whether it can move
/// a step up, down, left or right.
pub fn tick_state(
    touched: bool,
    rand_bits: u64,
    empty_up: bool,
    empty_down: bool,
    empty_left: bool,
    empty_right: bool,
) -> (r: ScriptState)
    ensures
        r@ == Map::<Seq<char>, ScriptStateValue>::empty().insert(
            PLAYER_TOUCHED_STATE_KEY@,
            ScriptStateValue::Bool(touched),
        ).insert(RAND_STATE_KEY@, ScriptStateValue::Float(rand_bits)).insert(
            "is-empty-up"@,
            ScriptStateValue::Bool(empty_up),
        ).insert("is-empty-down"@, ScriptStateValue::Bool(empty_down)).insert(
            "is-empty-left"@,
            ScriptStateValue::Bool(empty_left),
        ).insert("is-empty-right"@, ScriptStateValue::Bool(empty_right)),
{
    let mut state = ScriptState::new();
    state.insert(PLAYER_TOUCHED_STATE_KEY.to_owned(), ScriptStateValue::Bool(touched));
    state.insert(RAND_STATE_KEY.to_owned(), ScriptStateValue::Float(rand_bits));
    state.insert("is-empty-up".to_owned(), ScriptStateValue::Bool(empty_up));
    state.insert("is-empty-down".to_owned(), ScriptStateValue::Bool(empty_down));
    state.insert("is-empty-left".to_owned(), ScriptStateValue::Bool(empty_left));
    state.insert("is-empty-right".to_owned(), ScriptStateValue::Bool(empty_right));
    state
}

// ---------------------------------------------------------------------------
// The editor's switches for a stage run.
// ---------------------------------------------------------------------------

/// Whether the player's program runs, and where the stage stands.
pub struct EditorFlags {
    /// The program runs and the player can be steered.
    pub controls_enabled: bool,
    /// The player and the stone go back to where they started.
    pub pending_player_reset: bool,
    /// The goal has been reached.
    pub stage_cleared: bool,
    /// The stage clear popup is showing.
    pub stage_clear_popup_open: bool,
}

impl EditorFlags {
    /// Nothing running, nothing cleared.
    pub fn new() -> (r: EditorFlags)
        ensures
            !r.controls_enabled,
            !r.pending_player_reset,
            !r.stage_cleared,
            !r.stage_clear_popup_open,
    {
        EditorFlags {
            controls_enabled: false,
            pending_player_reset: false,
            stage_cleared: false,
            stage_clear_popup_open: false,
        }
    }

    /// Whether reaching the goal is watched for: while the program runs, the
    /// stage is not cleared yet and the player is not already climbing out.
    pub open spec fn spec_watches_goal(&self, descending: bool) -> bool {
        self.controls_enabled && !self.stage_cleared && !descending
    }

    /// Whether reaching the goal is watched for.
    pub fn watches_goal(&self, descending: bool) -> (r: bool)
        ensures
            r == self.spec_watches_goal(descending),
    {
        self.controls_enabled && !self.stage_cleared && !descending
    }

    /// The player reached the goal: the program stops and the stage counts
    /// as cleared.
    pub fn reach_goal(&mut self)
        ensures
            !final(self).controls_enabled,
            final(self).stage_cleared,
            !final(self).pending_player_reset,
            !final(self).stage_clear_popup_open,
    {
        self.controls_enabled = false;
        self.stage_cleared = true;
        self.pending_player_reset = false;
        self.stage_clear_popup_open = false;
    }

    /// The cleared stage has been handled: play moved on or the game is
    /// complete.
    pub fn settle_clear(&mut self)
        ensures
            !final(self).controls_enabled,
            !final(self).pending_player_reset,
            !final(self).stage_cleared,
            final(self).stage_clear_popup_open == old(self).stage_clear_popup_open,
    {
        self.controls_enabled = false;
        self.pending_player_reset = false;
        self.stage_cleared = false;
    }

    /// A stage was rebuilt: nothing runs and nothing is cleared.
    pub fn stage_reloaded(&mut self)
        ensures
            !final(self).controls_enabled,
            !final(self).pending_player_reset,
            !final(self).stage_cleared,
            final(self).stage_clear_popup_open == old(self).stage_clear_popup_open,
    {
        self.controls_enabled = false;
        self.pending_player_reset = false;
        self.stage_cleared = false;
    }
}

/// Reaching the goal is reported once: once the stage counts as cleared,
/// the goal is no longer watched for, whatever the player does.
pub proof fn lemma_goal_reported_once(flags: EditorFlags, descending: bool)
    requires
        flags.stage_cleared,
    ensures
        !flags.spec_watches_goal(descending),
{
}

} // verus!
