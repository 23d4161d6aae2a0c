//! Host liveness from the exit of one ICMP echo probe.
use vstd::prelude::*;
use crate::types::IpAddress;

verus! {

/// What the echo mechanism reported.
#[derive(Clone, Copy, Debug, PartialEq, Eq, Structural)]
pub enum ProbeExit {
    /// The tool ran and saw at least one echo reply.
    Replied,
    /// The tool ran and saw no reply.
    NoReply,
    /// The tool could not be run at all (missing, not permitted).
    MechanismError,
}

/// The liveness of one host.
#[derive(Clone, Copy, Debug, PartialEq, Eq, Structural)]
pub struct LivenessResult {
    pub address: IpAddress,
    pub reachable: bool,
    pub exit: ProbeExit,
}

/// Raised when the probe could not even be attempted.
#[derive(Clone, Copy, Debug, PartialEq, Eq, Structural)]
pub struct ProbeMechanismError {
    pub address: IpAddress,
}

/// The liveness that a probe's exit stands for: reachable exactly when a reply was seen.
pub open spec fn liveness_of(address: IpAddress, exit: ProbeExit) -> LivenessResult {
    LivenessResult { address, reachable: exit == ProbeExit::Replied, exit }
}

/// A result, or the mechanism error that it holds.
pub open spec fn checked_of(r: LivenessResult) -> Result<LivenessResult, ProbeMechanismError> {
    if r.exit == ProbeExit::MechanismError {
        Err(ProbeMechanismError { address: r.address })
    } else {
        Ok(r)
    }
}

/// Reads the exit of a probe of `address`: reachable exactly when a reply was seen.
pub fn classify_probe_exit(address: IpAddress, exit: ProbeExit) -> (r: LivenessResult)
    ensures
        r == liveness_of(address, exit),
        r.address == address,
        r.exit == exit,
        r.reachable <==> exit == ProbeExit::Replied,
{
    let reachable = match exit {
        ProbeExit::Replied => true,
        ProbeExit::NoReply => false,
        ProbeExit::MechanismError => false,
    };
    LivenessResult { address, reachable, exit }
}

impl LivenessResult {
    /// Whether the host answered.
    pub fn is_reachable(&self) -> (r: bool)
        ensures
            r == self.reachable,
    {
        self.reachable
    }

    /// Keeps "host down" apart from "could not ask": a result whose probe could
    /// not run becomes an error, any other stays a result.
    pub fn into_checked(self) -> (r: Result<LivenessResult, ProbeMechanismError>)
        ensures
            r == checked_of(self),
            self.exit == ProbeExit::MechanismError ==> r == Err::<LivenessResult, ProbeMechanismError>(
                ProbeMechanismError { address: self.address },
            ),
            self.exit != ProbeExit::MechanismError ==> r == Ok::<LivenessResult, ProbeMechanismError>(self),
    {
        match self.exit {
            ProbeExit::MechanismError => Err(ProbeMechanismError { address: self.address }),
            _ => Ok(self),
        }
    }
}

/// A host that answers is reachable; one that does not answer is unreachable
/// and is no error; and a probe that could not run is an error, never a plain
/// "unreachable".
pub proof fn lemma_liveness_outcomes(address: IpAddress)
    ensures
        checked_of(liveness_of(address, ProbeExit::Replied)) matches Ok(r) && r.reachable,
        checked_of(liveness_of(address, ProbeExit::NoReply)) matches Ok(r) && !r.reachable,
        checked_of(liveness_of(address, ProbeExit::MechanismError)) == Err::<LivenessResult, ProbeMechanismError>(
            ProbeMechanismError { address },
        ),
{
}

} // verus!
