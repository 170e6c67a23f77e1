//! How long to wait before the event stream is opened again.
use crate::time::Duration;
use vstd::prelude::*;

verus! {

/// The wait after the first failure, in seconds.
pub const FIRST_WAIT: u64 = 1;

/// The longest wait, in seconds.
pub const LONGEST_WAIT: u64 = 30;

/// The wait that follows one of `secs` seconds: twice as long, up to the limit.
pub open spec fn longer(secs: int) -> int {
    if 2 * secs < LONGEST_WAIT {
        2 * secs
    } else {
        LONGEST_WAIT as int
    }
}

/// Reconnection with growing waits: each failure in a row doubles the wait, up to
/// a limit, and a line from the stream starts over.
#[derive(Debug)]
pub struct Backoff {
    secs: u64,
}

impl Backoff {
    /// The next wait, in seconds.
    pub closed spec fn secs(&self) -> int {
        self.secs as int
    }

    #[verifier::type_invariant]
    spec fn inv(self) -> bool {
        FIRST_WAIT <= self.secs <= LONGEST_WAIT
    }

    /// No failure yet.
    pub fn new() -> (r: Self)
        ensures
            r.secs() == FIRST_WAIT,
    {
        Backoff { secs: FIRST_WAIT }
    }

    /// A line was read from the stream.
    pub fn on_line(&mut self)
        ensures
            final(self).secs() == FIRST_WAIT,
    {
        self.secs = FIRST_WAIT;
    }

    /// The stream ended, or could not be opened; returns how long to wait before
    /// it is opened again.
    pub fn on_end(&mut self) -> (r: Duration)
        ensures
            r.nanos == old(self).secs() * 1_000_000_000,
            FIRST_WAIT <= old(self).secs() <= LONGEST_WAIT,
            final(self).secs() == longer(old(self).secs()),
    {
        proof {
            use_type_invariant(&*self);
        }
        let wait: u64 = self.secs;
        self.secs = if 2 * wait < LONGEST_WAIT {
            2 * wait
        } else {
            LONGEST_WAIT
        };
        Duration::from_secs(wait)
    }
}

/// The wait, in seconds, after `failures` failures that followed the first one
/// without a line between them.
pub open spec fn wait_after(failures: nat) -> int
    decreases failures,
{
    if failures == 0 {
        FIRST_WAIT as int
    } else {
        longer(wait_after((failures - 1) as nat))
    }
}

/// Waits never grow shorter while no line comes, and after five failures they
/// have reached the limit for good.
pub proof fn law_waits_reach_the_limit(failures: nat)
    ensures
        FIRST_WAIT <= wait_after(failures) <= LONGEST_WAIT,
        wait_after(failures) <= wait_after(failures + 1),
        failures >= 5 ==> wait_after(failures) == LONGEST_WAIT,
    decreases failures,
{
    if failures > 0 {
        law_waits_reach_the_limit((failures - 1) as nat);
        if failures == 5 {
            reveal_with_fuel(wait_after, 6);
        }
    }
}

/// Each wait is twice the one before, and never longer than the limit.
pub proof fn law_waits_double(failures: nat, secs: int)
    requires
        FIRST_WAIT <= secs <= LONGEST_WAIT,
    ensures
        longer(secs) <= LONGEST_WAIT,
        longer(secs) == 2 * secs || (longer(secs) == LONGEST_WAIT && 2 * secs > LONGEST_WAIT),
        wait_after(0) == FIRST_WAIT,
        wait_after(failures + 1) == 2 * wait_after(failures) || (wait_after(failures + 1)
            == LONGEST_WAIT && 2 * wait_after(failures) > LONGEST_WAIT),
{
    law_waits_reach_the_limit(failures);
}

} // verus!
