//! Enlarging the receive buffer of the UDP socket.
//!
//! A bigger kernel buffer gives the receive loop more slack to drain a burst
//! before the kernel drops datagrams. A plain request is clamped on Linux; a
//! forced one bypasses the clamp and needs a privilege. Never fatal: a small
//! buffer only weakens the mitigation.

use vstd::prelude::*;

verus! {

/// Target size of the receive buffer.
pub const UDP_RECV_BUFFER_BYTES: usize = 8 * 1024 * 1024;

/// What the configuration waits for.
#[derive(Clone, Copy, Debug, PartialEq, Eq, Structural)]
pub enum BufferState {
    /// To be started.
    Idle,
    /// The size to be set past the clamp.
    Force,
    /// The size to be requested in the portable way.
    Request,
    /// The size that the kernel granted, after a forced or a plain request.
    ReadBack { forced: bool },
    /// Nothing: the configuration is over.
    Done,
}

/// The reply to what the configuration waits for.
#[derive(Clone, Copy, Debug, PartialEq, Eq, Structural)]
pub enum BufferEvent {
    /// The start, and whether the system can set the size past a clamp.
    Start { can_force: bool },
    /// Whether the size was set past the clamp.
    Forced(bool),
    /// Whether the plain request succeeded.
    Requested(bool),
    /// The size in bytes that was read back, where it could be.
    Granted(Option<usize>),
}

/// What there is to report about a step.
#[derive(Clone, Copy, Debug, PartialEq, Eq, Structural)]
pub enum BufferNotice {
    RequestFailed,
    /// The sizes in KiB; one far below the other means that the system's limit
    /// needs raising.
    Granted { granted_kib: usize, requested_kib: usize, forced: bool },
    ReadBackFailed,
}

impl BufferState {
    /// Whether the event is a reply to what the state waits for.
    pub open spec fn expects(self, event: BufferEvent) -> bool {
        match self {
            BufferState::Idle => event is Start,
            BufferState::Force => event is Forced,
            BufferState::Request => event is Requested,
            BufferState::ReadBack { .. } => event is Granted,
            BufferState::Done => false,
        }
    }
}

/// The state that follows an event: a forced request where the system has one,
/// the plain request where that is missing or failed, then the size that was
/// granted.
pub open spec fn next_state(state: BufferState, event: BufferEvent) -> BufferState {
    match (state, event) {
        (BufferState::Idle, BufferEvent::Start { can_force: true }) => BufferState::Force,
        (BufferState::Idle, BufferEvent::Start { can_force: false }) => BufferState::Request,
        (BufferState::Force, BufferEvent::Forced(true)) => BufferState::ReadBack { forced: true },
        (BufferState::Force, BufferEvent::Forced(false)) => BufferState::Request,
        (BufferState::Request, BufferEvent::Requested(_)) => BufferState::ReadBack {
            forced: false,
        },
        (BufferState::ReadBack { .. }, BufferEvent::Granted(_)) => BufferState::Done,
        _ => state,
    }
}

/// What there is to report about an event.
pub open spec fn notice_of(state: BufferState, event: BufferEvent) -> Option<BufferNotice> {
    match (state, event) {
        (BufferState::Request, BufferEvent::Requested(false)) => Some(BufferNotice::RequestFailed),
        (BufferState::ReadBack { forced }, BufferEvent::Granted(Some(bytes))) => Some(
            BufferNotice::Granted {
                granted_kib: bytes / 1024,
                requested_kib: UDP_RECV_BUFFER_BYTES / 1024,
                forced,
            },
        ),
        (BufferState::ReadBack { .. }, BufferEvent::Granted(None)) => Some(
            BufferNotice::ReadBackFailed,
        ),
        _ => None,
    }
}

/// Takes the reply to what the configuration of the receive buffer waits for,
/// and gives what it waits for next, and what there is to report.
pub fn configure_recv_buffer(state: BufferState, event: BufferEvent) -> (r: (
    BufferState,
    Option<BufferNotice>,
))
    requires
        state.expects(event),
    ensures
        r.0 == next_state(state, event),
        r.1 == notice_of(state, event),
{
    match (state, event) {
        (BufferState::Idle, BufferEvent::Start { can_force }) => {
            if can_force {
                (BufferState::Force, None)
            } else {
                (BufferState::Request, None)
            }
        },
        (BufferState::Force, BufferEvent::Forced(forced)) => {
            if forced {
                (BufferState::ReadBack { forced: true }, None)
            } else {
                (BufferState::Request, None)
            }
        },
        (BufferState::Request, BufferEvent::Requested(accepted)) => {
            let notice = if accepted {
                None
            } else {
                Some(BufferNotice::RequestFailed)
            };
            (BufferState::ReadBack { forced: false }, notice)
        },
        (BufferState::ReadBack { forced }, BufferEvent::Granted(granted)) => {
            let notice = match granted {
                Some(bytes) => BufferNotice::Granted {
                    granted_kib: bytes / 1024,
                    requested_kib: UDP_RECV_BUFFER_BYTES / 1024,
                    forced,
                },
                None => BufferNotice::ReadBackFailed,
            };
            (BufferState::Done, Some(notice))
        },
        _ => (state, None),
    }
}

/// What the configuration meets: whether the system has a forced request and
/// whether that succeeds, whether the plain request does, and what size is read
/// back.
pub struct Kernel {
    pub can_force: bool,
    pub forces: bool,
    pub accepts: bool,
    pub granted: Option<usize>,
}

impl Kernel {
    /// The reply to what a state waits for.
    pub open spec fn reply(self, state: BufferState) -> BufferEvent {
        match state {
            BufferState::Idle => BufferEvent::Start { can_force: self.can_force },
            BufferState::Force => BufferEvent::Forced(self.forces),
            BufferState::Request => BufferEvent::Requested(self.accepts),
            _ => BufferEvent::Granted(self.granted),
        }
    }

    /// The states that the configuration goes through from `state` on, up to its
    /// end.
    pub open spec fn run(self, state: BufferState) -> Seq<BufferState>
        decreases
                match state {
                    BufferState::Idle => 4int,
                    BufferState::Force => 3,
                    BufferState::Request => 2,
                    BufferState::ReadBack { .. } => 1,
                    BufferState::Done => 0,
                },
    {
        if state is Done {
            Seq::empty()
        } else {
            let next = next_state(state, self.reply(state));
            seq![next] + self.run(next)
        }
    }
}

/// The configuration asks for this, in this order, whatever the kernel replies:
/// a forced request where there is one, the plain request unless that
/// succeeded, and at the end the size that was granted, of which it always
/// reports.
pub proof fn law_buffer_is_configured(kernel: Kernel)
    ensures
        kernel.run(BufferState::Idle) == if !kernel.can_force {
            seq![BufferState::Request, BufferState::ReadBack { forced: false }, BufferState::Done]
        } else if !kernel.forces {
            seq![
                BufferState::Force,
                BufferState::Request,
                BufferState::ReadBack { forced: false },
                BufferState::Done,
            ]
        } else {
            seq![BufferState::Force, BufferState::ReadBack { forced: true }, BufferState::Done]
        },
        forall|forced: bool|
            notice_of(
                BufferState::ReadBack { forced },
                #[trigger] kernel.reply(BufferState::ReadBack { forced }),
            ) is Some,
{
    reveal_with_fuel(Kernel::run, 5);
    assert(kernel.run(BufferState::Idle) =~= if !kernel.can_force {
        seq![BufferState::Request, BufferState::ReadBack { forced: false }, BufferState::Done]
    } else if !kernel.forces {
        seq![
            BufferState::Force,
            BufferState::Request,
            BufferState::ReadBack { forced: false },
            BufferState::Done,
        ]
    } else {
        seq![BufferState::Force, BufferState::ReadBack { forced: true }, BufferState::Done]
    });
}

/// What is reported is what the kernel replied: a plain request that failed, and
/// at the end the size that was granted, in whole KiB beside the 8 MiB that were
/// asked for, and by which request, or that it could not be read. Nothing else is
/// reported.
pub proof fn law_buffer_reports_are_true(state: BufferState, event: BufferEvent)
    requires
        state.expects(event),
    ensures
        ({
            let notice = notice_of(state, event);
            &&& notice == Some(BufferNotice::RequestFailed) <==> event == BufferEvent::Requested(
                false,
            )
            &&& notice == Some(BufferNotice::ReadBackFailed) <==> event == BufferEvent::Granted(
                None,
            )
            &&& (notice is Some && notice->0 is Granted) <==> (event is Granted
                && event->Granted_0 is Some)
            &&& notice matches Some(
                BufferNotice::Granted { granted_kib, requested_kib, forced },
            ) ==> {
                let bytes = event->Granted_0->0;
                &&& 1024 * granted_kib <= bytes < 1024 * (granted_kib + 1)
                &&& 1024 * requested_kib == UDP_RECV_BUFFER_BYTES == 8 * 1024 * 1024
                &&& state == BufferState::ReadBack { forced }
            }
        }),
{
}

} // verus!
