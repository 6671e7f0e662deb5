//! The relay beside a budgeted trial: when it may start, when it counts as
//! ready, and what stopping it means for the score.

use vstd::prelude::*;

verus! {

/// The longest a budgeted trial may run, in seconds.
pub const LONGEST_SECONDS: u64 = 7200;

/// The longest a relay may take to be ready, in seconds.
pub const READY_SECONDS: u64 = 35;

/// The longest a relay may take to stop, in seconds.
pub const STOP_SECONDS: u64 = 75;

/// What a relay writes once it is ready: `ready` and a line break.
pub open spec fn ready_bytes() -> Seq<u8> {
    seq![0x72, 0x65, 0x61, 0x64, 0x79, 0x0a]
}

/// How long to wait for a relay, in seconds; nothing where the trial's own limit
/// is none that a relay may have.
pub fn ready_limit(timeout: u64) -> (out: Option<u64>)
    ensures
        out == if 1 <= timeout <= LONGEST_SECONDS {
            Some(
                if timeout < READY_SECONDS {
                    timeout
                } else {
                    READY_SECONDS
                },
            )
        } else {
            None
        },
{
    if timeout < 1 || timeout > LONGEST_SECONDS {
        None
    } else if timeout < READY_SECONDS {
        Some(timeout)
    } else {
        Some(READY_SECONDS)
    }
}

/// Whether what a relay first wrote says that it is ready.
pub fn await_ready(first: &[u8]) -> (out: bool)
    ensures
        out == (first@ == ready_bytes()),
{
    let expected: [u8; 6] = [0x72, 0x65, 0x61, 0x64, 0x79, 0x0a];
    if first.len() != 6 {
        return false;
    }
    for i in 0..6usize
        invariant
            first@.len() == 6,
            expected@ == ready_bytes(),
            forall|j: int| 0 <= j < i ==> first@[j] == expected@[j],
    {
        if first[i] != expected[i] {
            assert(first@[i as int] != ready_bytes()[i as int]);
            return false;
        }
    }
    assert(first@ =~= ready_bytes());
    true
}

/// What to do about a relay that was asked to stop.
#[derive(Clone, Copy, Debug, PartialEq, Eq, Structural)]
pub enum Stopping {
    /// Look again after a while.
    Wait,
    /// It stopped as it should.
    Stopped,
    /// It stopped, but not as it should: no score is valid.
    Failed,
    /// It is past its limit: kill it; no score is valid.
    Kill,
}

/// What to do about a relay that was asked to stop: whether it succeeded, where
/// it has ended, and whether its time is over.
pub fn stop(ended: Option<bool>, expired: bool) -> (out: Stopping)
    ensures
        out == match ended {
            Some(true) => Stopping::Stopped,
            Some(false) => Stopping::Failed,
            None => if expired {
                Stopping::Kill
            } else {
                Stopping::Wait
            },
        },
{
    match ended {
        Some(true) => Stopping::Stopped,
        Some(false) => Stopping::Failed,
        None => if expired {
            Stopping::Kill
        } else {
            Stopping::Wait
        },
    }
}

/// A budgeted trial may run for two hours; its relay may take 35 seconds to be ready and 75
/// to stop, and says that it is ready by the word and a line break.
pub proof fn a_relay_has_its_limits()
    ensures
        LONGEST_SECONDS == 2 * 60 * 60,
        READY_SECONDS == 35,
        STOP_SECONDS == 75,
        ready_bytes().len() == "ready\n"@.len(),
        forall|i: int|
            0 <= i < ready_bytes().len() ==> (#[trigger] ready_bytes()[i]) as u32
                == "ready\n"@[i] as u32,
{
    reveal_strlit("ready\n");
}

} // verus!
