//! A blocking socket over the firmware's own TCP stack: how long to wait, and
//! which bytes belong to which read.
//!
//! EFI networking is entirely asynchronous: every operation completes later, and
//! nothing progresses unless the caller keeps polling to give the driver cycles.
//! Everything above wants ordinary blocking reads and writes.

use crate::bytes;
use crate::strings;
use vstd::prelude::*;
use vstd::string::StringExecFns;

verus! {

// ---------------------------------------------------------------------------
// Waiting

/// Attempts at configuring the stack, half a second apart.
pub const CONFIGURE_ATTEMPTS: u32 = 40;

/// Turns of the pump before an operation has timed out: about 30s at 500us each.
pub const PUMP_TURNS: u32 = 60_000;

/// What configuring the stack came to.
#[derive(Debug)]
pub enum Configured {
    Done,
    /// The stack is up but has no address yet: DHCP has not finished.
    NoMapping,
    /// Anything else, as the firmware calls it.
    Failed(String),
}

/// What to do about it.
#[derive(Debug)]
pub enum LeaseStep {
    Ready,
    /// Try again in half a second, and say so the first time.
    Retry { announce: bool },
    GiveUp(String),
}

/// Configuring with whatever address the firmware's stack already holds.
///
/// On a cold boot the lease often lands a second or two after an application
/// starts, so having no address is a timing condition to wait out, not a failure
/// to report.
#[derive(Debug, Clone, Copy, PartialEq, Eq, Structural)]
pub struct Lease {
    pub attempt: u32,
}

impl Lease {
    pub fn new() -> (r: Self)
        ensures
            r.attempt == 0,
    {
        Lease { attempt: 0 }
    }

    pub fn on_configured(&mut self, outcome: Configured) -> (r: LeaseStep)
        requires
            old(self).attempt < CONFIGURE_ATTEMPTS,
        ensures
            match outcome {
                Configured::Done => r is Ready && final(self).attempt == old(self).attempt,
                Configured::Failed(status) => {
                    &&& r matches LeaseStep::GiveUp(said)
                    &&& said@ == "TCP4 Configure failed: "@ + status@
                    &&& final(self).attempt == old(self).attempt
                },
                Configured::NoMapping => {
                    &&& final(self).attempt == old(self).attempt + 1
                    &&& if old(self).attempt + 1 < CONFIGURE_ATTEMPTS {
                        r == (LeaseStep::Retry { announce: old(self).attempt == 0 })
                    } else {
                        r matches LeaseStep::GiveUp(said) && said@
                            == "no IP address after 20s (NO_MAPPING)"@
                    }
                },
            },
    {
        match outcome {
            Configured::Done => LeaseStep::Ready,
            Configured::Failed(status) => LeaseStep::GiveUp(
                strings::concat("TCP4 Configure failed: ", status.as_str()),
            ),
            Configured::NoMapping => {
                let announce = self.attempt == 0;
                self.attempt = self.attempt + 1;
                if self.attempt < CONFIGURE_ATTEMPTS {
                    LeaseStep::Retry { announce }
                } else {
                    LeaseStep::GiveUp("no IP address after 20s (NO_MAPPING)".to_owned())
                }
            },
        }
    }
}

/// What one turn of the pump saw of an operation.
#[derive(Debug)]
pub enum Turn {
    Pending,
    Succeeded,
    /// The status it ended with, as the firmware calls it.
    Failed(String),
}

/// An operation that is waited for.
#[derive(Debug, Clone, Copy, PartialEq, Eq, Structural)]
pub struct Pump {
    pub turns: u32,
}

impl Pump {
    pub fn new() -> (r: Self)
        ensures
            r.turns == 0,
    {
        Pump { turns: 0 }
    }

    /// One turn. `None` waits for another one.
    pub fn on_turn(&mut self, turn: Turn, what: &str) -> (r: Option<Result<(), String>>)
        requires
            old(self).turns < PUMP_TURNS,
        ensures
            match turn {
                Turn::Succeeded => r == Some(Ok::<(), String>(())) && final(self).turns == old(
                    self,
                ).turns,
                Turn::Failed(status) => {
                    &&& r matches Some(Err(said))
                    &&& said@ == what@ + " failed: "@ + status@
                    &&& final(self).turns == old(self).turns
                },
                Turn::Pending => {
                    &&& final(self).turns == old(self).turns + 1
                    &&& if old(self).turns + 1 < PUMP_TURNS {
                        r is None
                    } else {
                        r matches Some(Err(said)) && said@ == what@ + " timed out"@
                    }
                },
            },
    {
        match turn {
            Turn::Succeeded => Some(Ok(())),
            Turn::Failed(status) => {
                let mut said = strings::concat(what, " failed: ");
                said.append(status.as_str());
                Some(Err(said))
            },
            Turn::Pending => {
                self.turns = self.turns + 1;
                if self.turns < PUMP_TURNS {
                    None
                } else {
                    Some(Err(strings::concat(what, " timed out")))
                }
            },
        }
    }
}

// ---------------------------------------------------------------------------
// Reading

/// How much to ask the stack for at once.
pub fn receive_size(want: usize) -> (r: usize)
    ensures
        r == if want < 1 {
            1
        } else if want > 65536 {
            65536
        } else {
            want as int
        },
{
    if want < 1 {
        1
    } else if want > 65536 {
        65536
    } else {
        want
    }
}

/// Bytes that arrived and that no read has been given yet: left over from a receive
/// that returned more than was wanted.
#[derive(Debug)]
pub struct Inbound {
    pub pending: Vec<u8>,
}

/// A read of exactly `want` bytes, of which `out` are there. Every PDU header and
/// payload length in NVMe/TCP is known in advance, so this is the primitive that
/// layer wants.
#[derive(Debug)]
pub struct ExactRead {
    pub want: usize,
    pub out: Vec<u8>,
}

impl Inbound {
    pub fn new() -> (r: Self)
        ensures
            r.pending@ == Seq::<u8>::empty(),
    {
        Inbound { pending: Vec::new() }
    }

    /// Starts a read with what is left over.
    pub fn begin(&mut self, want: usize) -> (r: ExactRead)
        ensures
            r.want == want,
            r.out@ + final(self).pending@ == old(self).pending@,
            r.out@.len() <= want,
            r.out@.len() < want ==> final(self).pending@.len() == 0,
    {
        let have: usize = self.pending.len();
        let take: usize = if have < want {
            have
        } else {
            want
        };
        let out = bytes::copied(self.pending.as_slice(), 0, take);
        self.pending = bytes::copied(self.pending.as_slice(), take, have);
        assert(out@ + self.pending@ =~= old(self).pending@);
        ExactRead { want, out }
    }

    /// What arrived for a read that wants more. What is too much of it is kept for
    /// the next one.
    pub fn on_chunk(&mut self, read: &mut ExactRead, chunk: &[u8]) -> (r: Result<(), String>)
        requires
            old(read).out@.len() < old(read).want,
            old(self).pending@.len() == 0,
            old(read).out@.len() + chunk@.len() <= usize::MAX,
        ensures
            final(read).want == old(read).want,
            match r {
                Err(said) => chunk@.len() == 0 && said@ == "connection closed mid-read"@
                    && final(read).out@ == old(read).out@ && final(self).pending@ == old(
                    self,
                ).pending@,
                Ok(()) => {
                    &&& chunk@.len() > 0
                    &&& final(read).out@ + final(self).pending@ == old(read).out@ + chunk@
                    &&& final(read).out@.len() <= final(read).want
                    &&& final(read).out@.len() < final(read).want ==> final(self).pending@.len()
                        == 0
                },
            },
    {
        if chunk.len() == 0 {
            return Err("connection closed mid-read".to_owned());
        }
        let missing: usize = read.want - read.out.len();
        let take: usize = if chunk.len() < missing {
            chunk.len()
        } else {
            missing
        };
        let mut now = bytes::copied(chunk, 0, take);
        let later = bytes::copied(chunk, take, chunk.len());
        read.out.append(&mut now);
        self.pending = later;
        assert(read.out@ + self.pending@ =~= old(read).out@ + chunk@);
        Ok(())
    }

    /// Everything that is left over, for a read until the peer closes.
    pub fn drain(&mut self) -> (r: Vec<u8>)
        ensures
            r@ == old(self).pending@,
            final(self).pending@ == Seq::<u8>::empty(),
    {
        let mut out: Vec<u8> = Vec::new();
        std::mem::swap(&mut out, &mut self.pending);
        out
    }
}

/// One more chunk of a response that is read until the peer closes. Tells whether
/// to go on. A closed connection arrives as an error, which is the normal end of
/// such a response; a response that is long enough is read no further.
pub fn read_on(out: &mut Vec<u8>, chunk: Option<Vec<u8>>, limit: usize) -> (more: bool)
    requires
        chunk matches Some(c) ==> old(out)@.len() + c@.len() <= usize::MAX,
    ensures
        match chunk {
            None => !more && final(out)@ == old(out)@,
            Some(c) => final(out)@ == old(out)@ + c@ && more == (c@.len() > 0 && old(out)@.len()
                + c@.len() < limit),
        },
{
    match chunk {
        None => false,
        Some(c) => {
            let mut c = c;
            if c.len() == 0 {
                assert(out@ + c@ =~= out@);
                return false;
            }
            out.append(&mut c);
            out.len() < limit
        },
    }
}

} // verus!
