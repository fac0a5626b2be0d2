//! Verified core of the Solo 2 PC runner simulator: CTAPHID packet framing and
//! reassembly, routing of reassembled messages, the user-presence control
//! channel, and the file-backed flash image of the internal filesystem.

pub mod error;
pub mod exchange;
pub mod flash;
pub mod frame;
pub mod littlefs_params;
pub mod platform;
pub mod reassembly;
pub mod server;
pub mod stream;
pub mod up_control;

use vstd::prelude::*;

verus! {

/// Unix socket on which the simulator speaks CTAPHID.
pub const SIM_SOCKET_PATH: &'static str = "/tmp/solo2-sim.sock";

/// Unix socket on which the simulator accepts user-presence control bytes.
pub const SIM_UP_SOCKET_PATH: &'static str = "/tmp/solo2-sim-up.sock";

} // verus!
