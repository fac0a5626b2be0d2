//! Filling a buffer from a stream that may hand out fewer bytes per read than
//! asked for.

use vstd::prelude::*;

verus! {

/// What happened since the last decision.
#[derive(Clone, Copy, Debug, PartialEq, Eq, Structural)]
pub enum ReadEvent {
    /// Nothing has been read yet.
    Started,
    /// The read returned this many bytes; zero means the peer closed.
    Read(usize),
    /// The read failed.
    Failed,
}

/// What to do next.
#[derive(Clone, Copy, Debug, PartialEq, Eq, Structural)]
pub enum ReadStep {
    /// Read into the buffer from this position on.
    Continue(usize),
    /// The buffer is full; no further read is needed.
    Filled,
    /// The peer closed before the buffer was full.
    UnexpectedEof,
    /// Give up with the read's error.
    Failed,
}

/// Decide how reading continues when `filled` of `want` bytes are in the
/// buffer and `event` happened since: a full buffer needs no read (so an
/// empty buffer is filled at once, without reading), a read of zero bytes
/// means the peer closed, and a failed read gives up.
pub fn read_step(filled: usize, want: usize, event: ReadEvent) -> (step: ReadStep)
    requires
        filled <= want,
        event matches ReadEvent::Read(n) ==> n <= want - filled,
    ensures
        event == ReadEvent::Started ==> step == if filled == want {
            ReadStep::Filled
        } else {
            ReadStep::Continue(filled)
        },
        event == ReadEvent::Failed ==> step == ReadStep::Failed,
        event == ReadEvent::Read(0) ==> step == if filled == want {
            ReadStep::Filled
        } else {
            ReadStep::UnexpectedEof
        },
        event matches ReadEvent::Read(n) ==> (n > 0 ==> step == if filled + n == want {
            ReadStep::Filled
        } else {
            ReadStep::Continue((filled + n) as usize)
        }),
{
    match event {
        ReadEvent::Started => {
            if filled == want {
                ReadStep::Filled
            } else {
                ReadStep::Continue(filled)
            }
        },
        ReadEvent::Failed => ReadStep::Failed,
        ReadEvent::Read(n) => {
            if filled + n == want {
                ReadStep::Filled
            } else if n == 0 {
                ReadStep::UnexpectedEof
            } else {
                ReadStep::Continue(filled + n)
            }
        },
    }
}

} // verus!
