use vstd::prelude::*;

verus! {

// ---------------------------------------------------------------------------
// The player's animation and input.
// ---------------------------------------------------------------------------

/// Which of the player's animations plays.
#[derive(Debug, Clone, Copy, PartialEq, Eq, Structural)]
pub enum PlayerAnimationState {
    Idle,
    Run,
    Climb,
}

/// The animation the player's motion calls for, and how many times faster
/// than normal its frames advance: running plays at double speed.
pub fn desired_animation(is_moving: bool, is_climbing: bool) -> (r: (PlayerAnimationState, u32))
    ensures
        is_moving ==> r == (PlayerAnimationState::Run, 2u32),
        !is_moving && is_climbing ==> r == (PlayerAnimationState::Climb, 1u32),
        !is_moving && !is_climbing ==> r == (PlayerAnimationState::Idle, 1u32),
{
    if is_moving {
        (PlayerAnimationState::Run, 2)
    } else if is_climbing {
        (PlayerAnimationState::Climb, 1)
    } else {
        (PlayerAnimationState::Idle, 1)
    }
}

/// Whether the player is animated at all: while the controls are on, or
/// while climbing out of the stage.
pub fn animation_active(controls_enabled: bool, is_climbing: bool) -> (r: bool)
    ensures
        r == (controls_enabled || is_climbing),
{
    controls_enabled || is_climbing
}

/// The animation that plays and the frame of it that is shown.
pub struct PlayerAnimator {
    pub state: PlayerAnimationState,
    pub frame_index: usize,
}

impl PlayerAnimator {
    /// Standing still, on the first frame.
    pub fn new() -> (r: PlayerAnimator)
        ensures
            r.state == PlayerAnimationState::Idle,
            r.frame_index == 0,
    {
        PlayerAnimator { state: PlayerAnimationState::Idle, frame_index: 0 }
    }

    /// Switches to `desired`, starting over from its first frame, unless it
    /// already plays; says whether it switched.
    pub fn switch_to(&mut self, desired: PlayerAnimationState) -> (r: bool)
        ensures
            r == (old(self).state != desired),
            final(self).state == desired,
            final(self).frame_index == if r {
                0
            } else {
                old(self).frame_index
            },
    {
        if self.state != desired {
            self.state = desired;
            self.frame_index = 0;
            true
        } else {
            false
        }
    }

    /// Moves on to the next of `frame_count` frames, back to the first after
    /// the last; gives the frame now shown.
    pub fn next_frame(&mut self, frame_count: usize) -> (r: usize)
        requires
            frame_count > 0,
        ensures
            r == (old(self).frame_index as int + 1) % (frame_count as int),
            final(self).frame_index == r,
            final(self).state == old(self).state,
            r < frame_count,
    {
        let next = if self.frame_index >= frame_count - 1 {
            (self.frame_index - (frame_count - 1)) % frame_count
        } else {
            self.frame_index + 1
        };
        proof {
            if self.frame_index >= frame_count - 1 {
                let f = self.frame_index as int;
                let c = frame_count as int;
                assert((f + 1) % c == (f - (c - 1)) % c) by {
                    vstd::arithmetic::div_mod::lemma_mod_sub_multiples_vanish(f + 1, c);
                }
            } else {
                assert((self.frame_index as int + 1) % (frame_count as int) == self.frame_index + 1) by {
                    vstd::arithmetic::div_mod::lemma_small_mod((self.frame_index + 1) as nat, frame_count as nat);
                }
            }
        }
        self.frame_index = next;
        next
    }

    /// Back to standing still on the first frame, as when the stage resets.
    pub fn reset(&mut self)
        ensures
            final(self).state == PlayerAnimationState::Idle,
            final(self).frame_index == 0,
    {
        self.state = PlayerAnimationState::Idle;
        self.frame_index = 0;
    }
}

/// Which way the player walks: right, left, or not at all when both or
/// neither are held.
pub fn walk_direction(right_held: bool, left_held: bool) -> (r: i8)
    ensures
        r == (if right_held {
            1int
        } else {
            0int
        }) - (if left_held {
            1int
        } else {
            0int
        }),
{
    let mut d: i8 = 0;
    if right_held {
        d += 1;
    }
    if left_held {
        d -= 1;
    }
    d
}

/// Whether the player jumps: only when asked to while standing on
/// something.
pub fn should_jump(jump_pressed: bool, grounded: bool) -> (r: bool)
    ensures
        r == (jump_pressed && grounded),
{
    jump_pressed && grounded
}

// ---------------------------------------------------------------------------
// Obstacles that vanish a while after the program starts.
// ---------------------------------------------------------------------------

/// The frames an obstacle loops through while it stands.
pub fn obstacle_loop_frames() -> (r: Vec<usize>)
    ensures
        r@ == seq![195usize, 196, 197, 198, 197, 196],
{
    let mut v: Vec<usize> = Vec::new();
    v.push(195);
    v.push(196);
    v.push(197);
    v.push(198);
    v.push(197);
    v.push(196);
    proof {
        assert(v@ =~= seq![195usize, 196, 197, 198, 197, 196]);
    }
    v
}

/// The frames an obstacle shows while it vanishes.
pub fn obstacle_vanish_frames() -> (r: Vec<usize>)
    ensures
        r@ == seq![212usize, 213, 214, 215],
{
    let mut v: Vec<usize> = Vec::new();
    v.push(212);
    v.push(213);
    v.push(214);
    v.push(215);
    proof {
        assert(v@ =~= seq![212usize, 213, 214, 215]);
    }
    v
}

/// A frame of one of an obstacle's two lists.
#[derive(Debug, Clone, Copy, PartialEq, Eq, Structural)]
pub enum ObstacleFrame {
    Loop(usize),
    Vanish(usize),
}

/// Where an obstacle is in its life.
pub struct ObstacleState {
    pub current_step: usize,
    pub is_vanishing: bool,
    pub hidden: bool,
}

/// What the game does to an obstacle on one frame.
#[derive(Debug, Clone, Copy, PartialEq, Eq, Structural)]
pub struct ObstacleUpdate {
    /// The obstacle starts over: a new random lifetime, and its collider
    /// back if it was taken.
    pub restart: bool,
    /// The obstacle stops blocking.
    pub remove_collider: bool,
    /// The frame to show, when it changes.
    pub frame: Option<ObstacleFrame>,
}

impl ObstacleState {
    /// A standing obstacle on its first frame.
    pub fn new() -> (r: ObstacleState)
        ensures
            r.current_step == 0,
            !r.is_vanishing,
            !r.hidden,
    {
        ObstacleState { current_step: 0, is_vanishing: false, hidden: false }
    }

    /// One frame while the player edits the program: a vanished or vanishing
    /// obstacle comes back, and the standing loop plays on each animation
    /// tick.
    pub fn edit_frame(&mut self, animation_tick: bool, loop_len: usize) -> (r: ObstacleUpdate)
        requires
            loop_len > 0,
            old(self).current_step < loop_len,
        ensures
            r.restart == (old(self).hidden || old(self).is_vanishing),
            !r.remove_collider,
            !final(self).hidden,
            !final(self).is_vanishing,
            final(self).current_step < loop_len,
            animation_tick ==> {
                &&& final(self).current_step == ((if r.restart {
                    0
                } else {
                    old(self).current_step as int
                }) + 1) % (loop_len as int)
                &&& r.frame == Some(ObstacleFrame::Loop(final(self).current_step as usize))
            },
            !animation_tick ==> {
                &&& final(self).current_step == (if r.restart {
                    0
                } else {
                    old(self).current_step
                })
                &&& r.frame is None
            },
    {
        let restart = self.hidden || self.is_vanishing;
        if restart {
            self.is_vanishing = false;
            self.current_step = 0;
            self.hidden = false;
        }
        let mut frame: Option<ObstacleFrame> = None;
        if animation_tick {
            let next = if self.current_step + 1 == loop_len {
                0
            } else {
                self.current_step + 1
            };
            proof {
                let s = self.current_step as int;
                let n = loop_len as int;
                if s + 1 == n {
                    vstd::arithmetic::div_mod::lemma_mod_self_0(n);
                } else {
                    vstd::arithmetic::div_mod::lemma_small_mod((s + 1) as nat, n as nat);
                }
            }
            self.current_step = next;
            frame = Some(ObstacleFrame::Loop(next));
        }
        ObstacleUpdate { restart, remove_collider: false, frame }
    }

    /// One frame while the program runs: once its lifetime is up a standing
    /// obstacle stops blocking and starts to vanish; each animation tick
    /// shows its next frame; after the last vanishing frame it is hidden.
    pub fn play_frame(
        &mut self,
        animation_tick: bool,
        lifetime_over: bool,
        loop_len: usize,
        vanish_len: usize,
    ) -> (r: ObstacleUpdate)
        requires
            loop_len > 0,
            vanish_len > 0,
            !old(self).is_vanishing ==> old(self).current_step < loop_len,
            old(self).is_vanishing ==> old(self).current_step < vanish_len,
        ensures
            !r.restart,
            old(self).hidden ==> final(self).current_step == old(self).current_step
                && final(self).is_vanishing == old(self).is_vanishing && final(self).hidden
                && !r.remove_collider && r.frame is None,
            !old(self).hidden ==> {
                let starts = !old(self).is_vanishing && lifetime_over;
                let vanishing = old(self).is_vanishing || starts;
                let step = if starts {
                    0
                } else {
                    old(self).current_step as int
                };
                &&& final(self).is_vanishing == vanishing
                &&& r.remove_collider == (starts || (animation_tick && vanishing && step + 1 >= vanish_len))
                &&& final(self).hidden == (animation_tick && vanishing && step + 1 >= vanish_len)
                &&& animation_tick && vanishing ==> final(self).current_step == step + 1 && (step + 1
                    < vanish_len ==> r.frame == Some(ObstacleFrame::Vanish((step + 1) as usize)))
                    && (step + 1 >= vanish_len ==> r.frame == (if starts {
                    Some(ObstacleFrame::Vanish(0))
                } else {
                    None
                }))
                &&& animation_tick && !vanishing ==> final(self).current_step == (step + 1) % (
                loop_len as int) && r.frame == Some(ObstacleFrame::Loop(final(self).current_step))
                &&& !animation_tick ==> final(self).current_step == step && r.frame == (if starts {
                    Some(ObstacleFrame::Vanish(0))
                } else {
                    None
                })
            },
    {
        if self.hidden {
            return ObstacleUpdate { restart: false, remove_collider: false, frame: None };
        }
        let mut remove_collider = false;
        let mut frame: Option<ObstacleFrame> = None;
        if !self.is_vanishing && lifetime_over {
            self.is_vanishing = true;
            self.current_step = 0;
            remove_collider = true;
            frame = Some(ObstacleFrame::Vanish(0));
        }
        if animation_tick {
            if self.is_vanishing {
                self.current_step = self.current_step + 1;
                if self.current_step >= vanish_len {
                    self.hidden = true;
                    remove_collider = true;
                } else {
                    frame = Some(ObstacleFrame::Vanish(self.current_step));
                }
            } else {
                let next = if self.current_step + 1 == loop_len {
                    0
                } else {
                    self.current_step + 1
                };
                proof {
                    let s = self.current_step as int;
                    let n = loop_len as int;
                    if s + 1 == n {
                        vstd::arithmetic::div_mod::lemma_mod_self_0(n);
                    } else {
                        vstd::arithmetic::div_mod::lemma_small_mod((s + 1) as nat, n as nat);
                    }
                }
                self.current_step = next;
                frame = Some(ObstacleFrame::Loop(next));
            }
        }
        ObstacleUpdate { restart: false, remove_collider, frame }
    }
}

} // verus!
