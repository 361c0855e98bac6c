//! Connection/acquisition state machine toward the hardware source.
//!
//! The hardware itself is an opaque data source: opening it may fail,
//! and the caller reports that outcome as a plain boolean.  Every
//! transition either follows one of the listed edges or leaves the
//! state untouched and reports `InvalidTransition`.
use vstd::prelude::*;

use crate::errors::CoreError;

verus! {

/// The three acquisition states.  Exactly one value is held centrally.
#[derive(Clone, Copy, Debug, PartialEq, Eq, Structural)]
pub enum ConnectionState {
    Disconnected,
    Connected,
    Reading,
}

/// A connection command, used to state the machine's laws uniformly.
#[derive(Clone, Copy, Debug, PartialEq, Eq, Structural)]
pub enum LinkCommand {
    /// Open the hardware; the boolean is whether the open succeeded.
    Connect(bool),
    Disconnect,
    StartReading,
    ReadSingle,
    StopReading,
}

/// The state machine.  A producer loop outside the engine acquires
/// spectra while the state is `Reading` and must observe a transition
/// away from `Reading` within one acquisition cycle.
pub struct AcquisitorLink {
    pub state: ConnectionState,
}

/// The complete transition relation: the state after `cmd` runs in `s`.
/// Any pair outside the listed edges maps to `s` itself.
pub open spec fn link_next(s: ConnectionState, cmd: LinkCommand) -> ConnectionState {
    match cmd {
        LinkCommand::Connect(hw_ok) => {
            if s == ConnectionState::Disconnected && hw_ok {
                ConnectionState::Connected
            } else {
                s
            }
        },
        LinkCommand::Disconnect => {
            if s == ConnectionState::Connected || s == ConnectionState::Reading {
                ConnectionState::Disconnected
            } else {
                s
            }
        },
        LinkCommand::StartReading => {
            if s == ConnectionState::Connected {
                ConnectionState::Reading
            } else {
                s
            }
        },
        LinkCommand::ReadSingle => s,
        LinkCommand::StopReading => {
            if s == ConnectionState::Reading {
                ConnectionState::Connected
            } else {
                s
            }
        },
    }
}

/// Whether `cmd` run in `s` succeeds.  A command from a state with no
/// such edge fails; `Connect` also fails when the hardware open fails.
pub open spec fn link_accepts(s: ConnectionState, cmd: LinkCommand) -> bool {
    match cmd {
        LinkCommand::Connect(hw_ok) => s == ConnectionState::Disconnected && hw_ok,
        LinkCommand::Disconnect => s == ConnectionState::Connected || s == ConnectionState::Reading,
        LinkCommand::StartReading => s == ConnectionState::Connected,
        LinkCommand::ReadSingle => s == ConnectionState::Connected,
        LinkCommand::StopReading => s == ConnectionState::Reading,
    }
}

/// The error reported when `cmd` run in `s` fails.
pub open spec fn link_error(s: ConnectionState, cmd: LinkCommand) -> CoreError {
    if cmd matches LinkCommand::Connect(hw_ok) && s == ConnectionState::Disconnected && !hw_ok {
        CoreError::Hardware
    } else {
        CoreError::InvalidTransition
    }
}

impl AcquisitorLink {
    /// A fresh link starts disconnected.
    pub fn new() -> (r: AcquisitorLink)
        ensures
            r.state == ConnectionState::Disconnected,
    {
        AcquisitorLink { state: ConnectionState::Disconnected }
    }

    /// Runs one command.  The new state is exactly `link_next`, success
    /// exactly `link_accepts`, and a failure reports `link_error` with
    /// the state left unchanged.
    pub fn step(&mut self, cmd: LinkCommand) -> (r: Result<(), CoreError>)
        ensures
            final(self).state == link_next(old(self).state, cmd),
            r is Ok <==> link_accepts(old(self).state, cmd),
            r matches Err(e) ==> e == link_error(old(self).state, cmd),
            !link_accepts(old(self).state, cmd) ==> final(self).state == old(self).state,
    {
        match cmd {
            LinkCommand::Connect(hw_ok) => {
                if self.state == ConnectionState::Disconnected {
                    if hw_ok {
                        self.state = ConnectionState::Connected;
                        Ok(())
                    } else {
                        Err(CoreError::Hardware)
                    }
                } else {
                    Err(CoreError::InvalidTransition)
                }
            },
            LinkCommand::Disconnect => {
                if self.state == ConnectionState::Connected || self.state == ConnectionState::Reading {
                    self.state = ConnectionState::Disconnected;
                    Ok(())
                } else {
                    Err(CoreError::InvalidTransition)
                }
            },
            LinkCommand::StartReading => {
                if self.state == ConnectionState::Connected {
                    self.state = ConnectionState::Reading;
                    Ok(())
                } else {
                    Err(CoreError::InvalidTransition)
                }
            },
            LinkCommand::ReadSingle => {
                if self.state == ConnectionState::Connected {
                    Ok(())
                } else {
                    Err(CoreError::InvalidTransition)
                }
            },
            LinkCommand::StopReading => {
                if self.state == ConnectionState::Reading {
                    self.state = ConnectionState::Connected;
                    Ok(())
                } else {
                    Err(CoreError::InvalidTransition)
                }
            },
        }
    }
}

/// Law: over any sequence of commands, only the listed edges ever change
/// the state.  A command that `link_accepts` refuses leaves the state
/// exactly as it was, and a command it accepts moves along its single
/// listed edge; `ReadSingle` never changes the state at all.
pub proof fn lemma_only_listed_edges_change_state(s: ConnectionState, cmd: LinkCommand)
    ensures
        !link_accepts(s, cmd) ==> link_next(s, cmd) == s,
        cmd matches LinkCommand::Connect(ok) && link_accepts(s, cmd) ==> s
            == ConnectionState::Disconnected && link_next(s, cmd) == ConnectionState::Connected,
        cmd == LinkCommand::Disconnect && link_accepts(s, cmd) ==> link_next(s, cmd)
            == ConnectionState::Disconnected,
        cmd == LinkCommand::StartReading && link_accepts(s, cmd) ==> s
            == ConnectionState::Connected && link_next(s, cmd) == ConnectionState::Reading,
        cmd == LinkCommand::StopReading && link_accepts(s, cmd) ==> s == ConnectionState::Reading
            && link_next(s, cmd) == ConnectionState::Connected,
        link_next(s, LinkCommand::ReadSingle) == s,
{
}

} // verus!
