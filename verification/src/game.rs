//! The game runner's control state: what the running scene asked for,
//! and how the runner's state machine answers between frames.
//!
//! The runner itself drives a window and a scene stack; the decisions it
//! takes each frame are pure and live here.

use vstd::prelude::*;

verus! {

/// The fixed video parameters a game window is created with.
#[derive(Clone, Copy, PartialEq, Eq, Structural, Debug)]
pub struct VideoProfile {
    /// Render width.
    pub width: usize,
    /// Render height.
    pub height: usize,
    /// Target framerate.
    pub framerate: usize,
    pub fullscreen: bool,
    pub vsync: bool,
}

/// What the running scene asked the runner to do once the frame ends.
#[derive(Clone, Copy, PartialEq, Eq, Structural, Debug)]
pub enum Target {
    /// Resume a paused scene.
    Continue,
    /// Pause the running scene.
    Pause,
    /// Unload the running scene and take the next queued one.
    Return,
    /// Unload the running scene and stop the runner.
    Quit,
    /// Nothing asked.
    Unset,
}

/// Where the runner stands between frames.
#[derive(Clone, Copy, PartialEq, Eq, Structural, Debug)]
pub enum RunState {
    Running,
    Paused,
    Available,
    Dead,
}

/// What the runner must do to the current scene while changing state.
#[derive(Clone, Copy, PartialEq, Eq, Structural, Debug)]
pub enum RunAction {
    /// Tell the scene it was paused.
    PauseScene,
    /// Tell the scene to unload.
    UnloadScene,
    /// Tell the scene it was resumed.
    UnpauseScene,
    /// Load the next queued scene, or the fallback when none is queued.
    LoadScene,
    /// Nothing to do to the scene.
    Keep,
}

/// The runner's transition table: from a state and the scene's request
/// to the next state and what to do to the scene.
pub open spec fn spec_advance(state: RunState, target: Target) -> (RunState, RunAction) {
    match state {
        RunState::Running => match target {
            Target::Pause => (RunState::Paused, RunAction::PauseScene),
            Target::Return => (RunState::Available, RunAction::UnloadScene),
            Target::Quit => (RunState::Dead, RunAction::UnloadScene),
            _ => (RunState::Running, RunAction::Keep),
        },
        RunState::Paused => if target is Continue {
            (RunState::Running, RunAction::UnpauseScene)
        } else {
            (RunState::Paused, RunAction::Keep)
        },
        RunState::Available => (RunState::Running, RunAction::LoadScene),
        RunState::Dead => (RunState::Dead, RunAction::Keep),
    }
}

impl RunState {
    /// A compact numeric tag for each state.
    pub fn into_u8(&self) -> (r: u8)
        ensures
            self is Running ==> r == 0,
            self is Paused ==> r == 1,
            self is Available ==> r == 2,
            self is Dead ==> r == 3,
    {
        match *self {
            RunState::Running => 0,
            RunState::Paused => 1,
            RunState::Available => 2,
            RunState::Dead => 3,
        }
    }

    /// Steps the runner's state machine once.
    pub fn advance(self, target: Target) -> (r: (RunState, RunAction))
        ensures
            r == spec_advance(self, target),
    {
        match self {
            RunState::Running => match target {
                Target::Pause => (RunState::Paused, RunAction::PauseScene),
                Target::Return => (RunState::Available, RunAction::UnloadScene),
                Target::Quit => (RunState::Dead, RunAction::UnloadScene),
                _ => (RunState::Running, RunAction::Keep),
            },
            RunState::Paused => if target == Target::Continue {
                (RunState::Running, RunAction::UnpauseScene)
            } else {
                (RunState::Paused, RunAction::Keep)
            },
            RunState::Available => (RunState::Running, RunAction::LoadScene),
            RunState::Dead => (RunState::Dead, RunAction::Keep),
        }
    }
}

impl Target {
    /// Asks the runner to quit; always granted.
    pub fn request_quit(self) -> (r: Target)
        ensures
            r is Quit,
    {
        Target::Quit
    }

    /// Asks the runner to finish the scene; always granted.
    pub fn request_finish(self) -> (r: Target)
        ensures
            r is Return,
    {
        Target::Return
    }

    /// Asks the runner to pause; not granted once quitting or finishing
    /// was asked.
    pub fn request_pause(self) -> (r: Target)
        ensures
            (self is Quit || self is Return) ==> r == self,
            !(self is Quit || self is Return) ==> r is Pause,
    {
        if self == Target::Quit || self == Target::Return {
            self
        } else {
            Target::Pause
        }
    }

    /// Asks the runner to resume; granted only while pausing was asked.
    pub fn request_unpause(self) -> (r: Target)
        ensures
            self is Pause ==> r is Continue,
            !(self is Pause) ==> r == self,
    {
        if self == Target::Pause {
            Target::Continue
        } else {
            self
        }
    }
}

} // verus!
