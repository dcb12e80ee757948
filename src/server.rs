use vstd::arithmetic::power2::{lemma2_to64, pow2};
use vstd::prelude::*;

verus! {

/// How many connections the server serves at once.
pub const MAX_CONNECTIONS: usize = 100;

/// The wait after the first failed accept, in seconds.
pub const INITIAL_BACKOFF_SECS: u64 = 1;

/// The longest wait between failed accepts, in seconds; past it the accept loop
/// gives up.
pub const MAX_BACKOFF_SECS: u64 = 64;

/// What the accept loop does after a failed accept.
#[derive(Clone, Copy, Debug, PartialEq, Eq)]
pub enum AcceptRetry {
    /// Wait this many seconds, then accept again.
    Wait(u64),
    /// Stop accepting and report the error.
    GiveUp,
}

/// The decision after a failed accept when the backoff stands at `secs`.
pub open spec fn decide(secs: u64) -> AcceptRetry {
    if secs > MAX_BACKOFF_SECS {
        AcceptRetry::GiveUp
    } else {
        AcceptRetry::Wait(secs)
    }
}

/// The backoff after a failed accept when it stood at `secs`: doubled after a wait.
pub open spec fn next_secs(secs: u64) -> u64 {
    if secs > MAX_BACKOFF_SECS {
        secs
    } else {
        (secs * 2) as u64
    }
}

/// The backoff after `n` failed accepts in a row.
pub open spec fn secs_after(n: nat) -> u64
    decreases n,
{
    if n == 0 {
        INITIAL_BACKOFF_SECS
    } else {
        next_secs(secs_after((n - 1) as nat))
    }
}

/// The exponential backoff of the accept loop, in seconds.
pub struct Backoff {
    secs: u64,
}

impl View for Backoff {
    type V = u64;

    closed spec fn view(&self) -> u64 {
        self.secs
    }
}

impl Backoff {
    #[verifier::type_invariant]
    spec fn bounded(self) -> bool {
        1 <= self.secs <= 2 * MAX_BACKOFF_SECS
    }

    pub fn new() -> (r: Backoff)
        ensures
            r@ == INITIAL_BACKOFF_SECS,
    {
        Backoff { secs: INITIAL_BACKOFF_SECS }
    }

    /// Decides what follows a failed accept, and doubles the wait after a retry.
    pub fn on_accept_error(&mut self) -> (r: AcceptRetry)
        ensures
            r == decide(old(self)@),
            final(self)@ == next_secs(old(self)@),
    {
        proof {
            use_type_invariant(&*self);
        }
        if self.secs > MAX_BACKOFF_SECS {
            AcceptRetry::GiveUp
        } else {
            let wait = self.secs;
            self.secs = self.secs * 2;
            AcceptRetry::Wait(wait)
        }
    }
}

/// Failed accepts in a row wait 1, 2, 4, ... seconds, each wait twice the one
/// before, up to 64; the accept that fails after the 64-second wait gives up.
pub proof fn lemma_backoff_schedule(n: nat)
    requires
        n <= 7,
    ensures
        secs_after(n) == pow2(n),
        n < 7 ==> decide(secs_after(n)) == AcceptRetry::Wait(pow2(n) as u64),
        n < 7 ==> secs_after(n + 1) == 2 * secs_after(n),
        n == 7 ==> decide(secs_after(n)) == AcceptRetry::GiveUp,
    decreases n,
{
    lemma2_to64();
    if n > 0 {
        lemma_backoff_schedule((n - 1) as nat);
    }
    assert(secs_after(n + 1) == next_secs(secs_after(n)));
}

/// Whether shutdown was signalled to a connection's handler; it observes the flag
/// before it starts on each next request.
pub struct Shutdown {
    shutdown: bool,
}

impl View for Shutdown {
    type V = bool;

    closed spec fn view(&self) -> bool {
        self.shutdown
    }
}

impl Shutdown {
    pub fn new() -> (r: Shutdown)
        ensures
            !r@,
    {
        Shutdown { shutdown: false }
    }

    pub fn is_shutdown(&self) -> (r: bool)
        ensures
            r == self@,
    {
        self.shutdown
    }

    /// Records that shutdown was signalled.
    pub fn notify(&mut self)
        ensures
            final(self)@,
    {
        self.shutdown = true;
    }
}

} // verus!
