use vstd::prelude::*;

use crate::script_types::{MoveDirection, ScriptCommand};

verus! {

/// The bit pattern of the 0.0001 s pause queued after every appended move,
/// so that a move is never merged with the next one and the stone cannot
/// pass through an obstacle.
pub const MOVE_SETTLE_SLEEP_BITS: u32 = 0x38d1_b717;

/// What the stone is busy with.
#[derive(Debug, Clone, Copy, PartialEq, Eq, Structural)]
pub enum StoneActionKind {
    Move,
    Sleep,
    Dig,
    Place,
}

/// What a ray cast from the stone towards a command's direction met.
#[derive(Debug, Clone, Copy, PartialEq, Eq, Structural)]
pub enum RayProbe {
    /// Nothing within reach.
    Nothing,
    /// A stage tile.
    Tile,
    /// Something that is not a tile (the player, a wall).
    Other,
}

/// How long a pause lasts.
#[derive(Debug, Clone, Copy, PartialEq, Eq, Structural)]
pub enum PauseLength {
    /// The short pause taken instead of a move into a tile.
    BlockedMove,
    /// The pause taken instead of placing a tile where something is.
    BlockedPlace,
    /// A pause the script asked for: seconds as an `f32` bit pattern, not
    /// less than zero once applied.
    Requested(u32),
}

/// What the stone starts doing for a command.
#[derive(Debug, Clone, Copy, PartialEq, Eq, Structural)]
pub enum StoneActionPlan {
    Move(MoveDirection),
    Pause(PauseLength),
    /// Digs towards the direction; whether a tile is there to be dug.
    Dig(MoveDirection, bool),
    Place(MoveDirection),
}

/// The action a command starts, given what a ray towards its direction met
/// (the probe is not read for a sleep).
pub open spec fn spec_plan(command: ScriptCommand, probe: RayProbe) -> StoneActionPlan {
    match command {
        ScriptCommand::Move(d) => if probe == RayProbe::Tile {
            StoneActionPlan::Pause(PauseLength::BlockedMove)
        } else {
            StoneActionPlan::Move(d)
        },
        ScriptCommand::Sleep(bits) => StoneActionPlan::Pause(PauseLength::Requested(bits)),
        ScriptCommand::Dig(d) => StoneActionPlan::Dig(d, probe == RayProbe::Tile),
        ScriptCommand::Place(d) => if probe == RayProbe::Nothing {
            StoneActionPlan::Place(d)
        } else {
            StoneActionPlan::Pause(PauseLength::BlockedPlace)
        },
    }
}

/// The kind of action a plan starts.
pub open spec fn spec_plan_kind(plan: StoneActionPlan) -> StoneActionKind {
    match plan {
        StoneActionPlan::Move(_) => StoneActionKind::Move,
        StoneActionPlan::Pause(_) => StoneActionKind::Sleep,
        StoneActionPlan::Dig(_, _) => StoneActionKind::Dig,
        StoneActionPlan::Place(_) => StoneActionKind::Place,
    }
}

/// The action `command` starts, given what a ray towards its direction met.
pub fn plan_action(command: ScriptCommand, probe: RayProbe) -> (r: StoneActionPlan)
    ensures
        r == spec_plan(command, probe),
{
    match command {
        ScriptCommand::Move(d) => {
            if probe == RayProbe::Tile {
                StoneActionPlan::Pause(PauseLength::BlockedMove)
            } else {
                StoneActionPlan::Move(d)
            }
        },
        ScriptCommand::Sleep(bits) => StoneActionPlan::Pause(PauseLength::Requested(bits)),
        ScriptCommand::Dig(d) => StoneActionPlan::Dig(d, probe == RayProbe::Tile),
        ScriptCommand::Place(d) => {
            if probe == RayProbe::Nothing {
                StoneActionPlan::Place(d)
            } else {
                StoneActionPlan::Pause(PauseLength::BlockedPlace)
            }
        },
    }
}

/// Whether carrying out `command` needs a ray cast first.
pub fn needs_probe(command: ScriptCommand) -> (r: bool)
    ensures
        r == !(command is Sleep),
{
    match command {
        ScriptCommand::Sleep(_) => false,
        _ => true,
    }
}

/// The stone's commands waiting to run, the action under way, and whether
/// the pause after the last action is still running.
pub struct StoneCommandState {
    queue: Vec<ScriptCommand>,
    current: Option<StoneActionKind>,
    cooling_down: bool,
}

impl StoneCommandState {
    /// The commands waiting to run, the next one first.
    pub closed spec fn pending(&self) -> Seq<ScriptCommand> {
        self.queue@
    }

    /// The action under way.
    pub closed spec fn action(&self) -> Option<StoneActionKind> {
        self.current
    }

    /// Whether the pause after the last action is still running.
    pub closed spec fn cooling(&self) -> bool {
        self.cooling_down
    }

    /// Nothing queued, nothing under way, no pause running.
    pub fn new() -> (r: StoneCommandState)
        ensures
            r.pending() == Seq::<ScriptCommand>::empty(),
            r.action() is None,
            !r.cooling(),
    {
        StoneCommandState { queue: Vec::new(), current: None, cooling_down: false }
    }

    /// Whether the stone still has something to do.
    pub fn is_busy(&self) -> (r: bool)
        ensures
            r == (self.action() is Some || self.pending().len() > 0 || self.cooling()),
    {
        self.current.is_some() || self.queue.len() > 0 || self.cooling_down
    }

    /// Whether the stone is moving.
    pub fn is_moving(&self) -> (r: bool)
        ensures
            r == (self.action() == Some(StoneActionKind::Move)),
    {
        match self.current {
            Some(StoneActionKind::Move) => true,
            _ => false,
        }
    }

    /// Drops whatever the stone was doing and queues `commands` in their
    /// place; the pause after the last action is cut short.
    pub fn replace_commands(&mut self, commands: Vec<ScriptCommand>)
        ensures
            final(self).pending() == commands@,
            final(self).action() is None,
            !final(self).cooling(),
    {
        self.queue = commands;
        self.current = None;
        self.cooling_down = false;
    }

    /// Queues `command` after the others; a move is followed by a very short
    /// pause.
    pub fn append_command(&mut self, command: ScriptCommand)
        ensures
            final(self).pending() == if command is Move {
                old(self).pending().push(command).push(ScriptCommand::Sleep(MOVE_SETTLE_SLEEP_BITS))
            } else {
                old(self).pending().push(command)
            },
            final(self).action() == old(self).action(),
            final(self).cooling() == old(self).cooling(),
    {
        self.queue.push(command);
        if let ScriptCommand::Move(_) = command {
            self.queue.push(ScriptCommand::Sleep(MOVE_SETTLE_SLEEP_BITS));
        }
    }

    /// Records whether the pause after the last action has run out.
    pub fn set_cooldown_finished(&mut self, finished: bool)
        ensures
            final(self).cooling() == !finished,
            final(self).pending() == old(self).pending(),
            final(self).action() == old(self).action(),
    {
        self.cooling_down = !finished;
    }

    /// The next command to start, when the stone is idle, its pause has run
    /// out and a command is waiting; the command leaves the queue.
    pub fn take_next_command(&mut self) -> (r: Option<ScriptCommand>)
        ensures
            (old(self).action() is None && !old(self).cooling() && old(self).pending().len() > 0) ==> {
                &&& r == Some(old(self).pending()[0])
                &&& final(self).pending() == old(self).pending().drop_first()
            },
            !(old(self).action() is None && !old(self).cooling() && old(self).pending().len() > 0) ==> {
                &&& r is None
                &&& final(self).pending() == old(self).pending()
            },
            final(self).action() == old(self).action(),
            final(self).cooling() == old(self).cooling(),
    {
        if self.current.is_none() && !self.cooling_down && self.queue.len() > 0 {
            let command = self.queue.remove(0);
            proof {
                assert(self.queue@ =~= old(self).queue@.drop_first());
            }
            Some(command)
        } else {
            None
        }
    }

    /// Starts the action `plan` describes.
    pub fn start_action(&mut self, plan: StoneActionPlan)
        ensures
            final(self).action() == Some(spec_plan_kind(plan)),
            final(self).pending() == old(self).pending(),
            final(self).cooling() == old(self).cooling(),
    {
        let kind = match plan {
            StoneActionPlan::Move(_) => StoneActionKind::Move,
            StoneActionPlan::Pause(_) => StoneActionKind::Sleep,
            StoneActionPlan::Dig(_, _) => StoneActionKind::Dig,
            StoneActionPlan::Place(_) => StoneActionKind::Place,
        };
        self.current = Some(kind);
    }

    /// Ends the action under way; the pause after it starts.
    pub fn finish_action(&mut self)
        ensures
            final(self).action() is None,
            final(self).cooling(),
            final(self).pending() == old(self).pending(),
    {
        self.current = None;
        self.cooling_down = true;
    }

    /// Stops the stone where it stands: the action under way and every queued
    /// command are dropped.
    pub fn halt(&mut self)
        ensures
            final(self).action() is None,
            final(self).pending() == Seq::<ScriptCommand>::empty(),
            final(self).cooling() == old(self).cooling(),
    {
        self.queue = Vec::new();
        self.current = None;
    }
}

/// Commands leave the queue in the order they were appended: appending a
/// command and then taking the next one gives the same command as taking it
/// first, as long as something was waiting.
pub proof fn lemma_queue_first_in_first_out(pending: Seq<ScriptCommand>, command: ScriptCommand)
    requires
        pending.len() > 0,
    ensures
        pending.push(command)[0] == pending[0],
        pending.push(command).drop_first() == pending.drop_first().push(command),
{
    assert(pending.push(command).drop_first() =~= pending.drop_first().push(command));
}

/// A place command is carried out only when the ray toward its direction
/// met nothing: a tile or anything else in the way turns it into the
/// blocked-place pause.
pub proof fn lemma_place_needs_empty_cell(d: MoveDirection, p: RayProbe)
    ensures
        (spec_plan(ScriptCommand::Place(d), p) == StoneActionPlan::Place(d)) <==> p == RayProbe::Nothing,
        p != RayProbe::Nothing ==> spec_plan(ScriptCommand::Place(d), p) == StoneActionPlan::Pause(
            PauseLength::BlockedPlace,
        ),
{
}

/// A move goes ahead unless the ray meets a stage tile, in which case the
/// stone only takes the short blocked-move pause; a dig digs exactly when
/// the ray met a tile; a sleep pauses for the time asked, whatever the ray.
pub proof fn lemma_plans_follow_the_probe(d: MoveDirection, p: RayProbe, bits: u32)
    ensures
        (spec_plan(ScriptCommand::Move(d), p) == StoneActionPlan::Move(d)) <==> p != RayProbe::Tile,
        p == RayProbe::Tile ==> spec_plan(ScriptCommand::Move(d), p) == StoneActionPlan::Pause(
            PauseLength::BlockedMove,
        ),
        spec_plan(ScriptCommand::Dig(d), p) == StoneActionPlan::Dig(d, p == RayProbe::Tile),
        spec_plan(ScriptCommand::Sleep(bits), p) == StoneActionPlan::Pause(PauseLength::Requested(bits)),
{
}

/// A plan never turns a command toward another direction: it acts in the
/// command's own direction, or it pauses.
pub proof fn lemma_plan_keeps_direction(c: ScriptCommand, p: RayProbe)
    ensures
        match spec_plan(c, p) {
            StoneActionPlan::Move(d) => c == ScriptCommand::Move(d),
            StoneActionPlan::Dig(d, _) => c == ScriptCommand::Dig(d),
            StoneActionPlan::Place(d) => c == ScriptCommand::Place(d),
            StoneActionPlan::Pause(_) => true,
        },
{
}

} // verus!
