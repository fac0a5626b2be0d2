//! The simulated board's user interface.

use vstd::prelude::*;
use crate::up_control::{after_take, level_of, take, ConsentLevel, UpControl};

verus! {

/// How long a check that got no consent pauses before the caller asks again,
/// so that waiting for a decision does not spin.
pub const PRESENCE_RETRY_PAUSE_MS: u64 = 50;

/// Time since boot that the simulated board reports, in milliseconds.
pub const UPTIME_MS: u64 = 1000;

/// Exit status of the simulator when the firmware asks for a reboot.
pub const REBOOT_EXIT_CODE: i32 = 25;

/// The answer to a user presence check.
#[derive(Clone, Copy, Debug, PartialEq, Eq, Structural)]
pub struct PresenceCheck {
    /// The consent level to report.
    pub level: ConsentLevel,
    /// How long to pause before reporting it.
    pub pause_ms: u64,
}

/// The user interface of the simulated board.
pub struct UserInterface {}

impl UserInterface {
    pub fn new() -> (ui: Self)
        ensures
            ui == (UserInterface {  }),
    {
        UserInterface {  }
    }

    /// Check for user presence: the answer comes from the presence control,
    /// and a check that got no consent pauses before it answers.
    pub fn check_user_presence(&mut self, control: &mut UpControl) -> (c: PresenceCheck)
        ensures
            c.level == level_of(old(control)@),
            final(control)@ == after_take(old(control)@),
            c.pause_ms == if c.level == ConsentLevel::NotGiven {
                PRESENCE_RETRY_PAUSE_MS
            } else {
                0
            },
    {
        let level = take(control);
        let pause_ms = if level == ConsentLevel::NotGiven {
            PRESENCE_RETRY_PAUSE_MS
        } else {
            0
        };
        PresenceCheck { level, pause_ms }
    }

    /// Time since boot, in milliseconds.
    pub fn uptime_ms(&self) -> (ms: u64)
        ensures
            ms == UPTIME_MS,
    {
        UPTIME_MS
    }
}

impl Default for UserInterface {
    fn default() -> (ui: Self)
        ensures
            ui == (UserInterface {  }),
    {
        UserInterface::new()
    }
}

} // verus!
