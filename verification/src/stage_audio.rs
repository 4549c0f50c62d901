use vstd::prelude::*;

verus! {

/// Which of a stage's sounds are playing or have played.
pub struct StageAudioState {
    clear_played: bool,
    push_loop_playing: bool,
}

impl StageAudioState {
    /// Whether the stage clear sound has played.
    pub closed spec fn cleared_sound_played(&self) -> bool {
        self.clear_played
    }

    /// Whether the looping sound of a pushed stone plays.
    pub closed spec fn push_loop_on(&self) -> bool {
        self.push_loop_playing
    }

    /// Nothing has played.
    pub fn new() -> (r: StageAudioState)
        ensures
            !r.cleared_sound_played(),
            !r.push_loop_on(),
    {
        StageAudioState { clear_played: false, push_loop_playing: false }
    }

    /// Starts the push loop unless it plays already; says whether a new one
    /// must be started.
    pub fn ensure_push_loop(&mut self) -> (r: bool)
        ensures
            r == !old(self).push_loop_on(),
            final(self).push_loop_on(),
            final(self).cleared_sound_played() == old(self).cleared_sound_played(),
    {
        let start = !self.push_loop_playing;
        self.push_loop_playing = true;
        start
    }

    /// Stops the push loop; says whether one was playing.
    pub fn stop_push_loop(&mut self) -> (r: bool)
        ensures
            r == old(self).push_loop_on(),
            !final(self).push_loop_on(),
            final(self).cleared_sound_played() == old(self).cleared_sound_played(),
    {
        let was = self.push_loop_playing;
        self.push_loop_playing = false;
        was
    }

    /// The stage clear sound plays once per stage; says whether it must
    /// play now.
    pub fn play_clear_once(&mut self) -> (r: bool)
        ensures
            r == !old(self).cleared_sound_played(),
            final(self).cleared_sound_played(),
            final(self).push_loop_on() == old(self).push_loop_on(),
    {
        let play = !self.clear_played;
        self.clear_played = true;
        play
    }

    /// A new stage: the clear sound may play again and the push loop stops;
    /// says whether a push loop was playing.
    pub fn reset(&mut self) -> (r: bool)
        ensures
            r == old(self).push_loop_on(),
            !final(self).cleared_sound_played(),
            !final(self).push_loop_on(),
    {
        self.clear_played = false;
        self.stop_push_loop()
    }
}

/// The background music starts once: whether it must start now, given
/// whether it has started before.
pub fn should_start_bgm(played_before: bool) -> (r: bool)
    ensures
        r == !played_before,
{
    !played_before
}

} // verus!
