//! The live, protocol-specific capability object of one actionner.
//! Its construction is gated on a liveness probe of the remote, and it
//! translates an opaque command plus a device identity into the exact
//! bytes to write on a fresh connection.  The network itself is driven
//! by the caller: probes and sends are handed in and out as values.

use vstd::prelude::*;
use crate::codec::CorruptRecord;
use crate::commands::{decode_command, frame_bytes, parse_payload, ArduinoCommand};
use crate::objects::{ActionnerId, ActionnerIdView, Object, ObjectView, Protocol};

verus! {

/// How long a liveness probe may take before the remote counts as dead,
/// in milliseconds.
pub const PROBE_TIMEOUT_MS: u64 = 100;

/// What the caller's probe of a remote produced: the bytes read back
/// after the probe frame was written, an I/O failure with its message,
/// or no attempt because the protocol offers no probe.
pub enum ProbeOutcome {
    Reply(Vec<u8>),
    IoFailed(String),
    NotAttempted,
}

/// A failure to build or drive a handler.
#[derive(Debug)]
pub enum HandlerError {
    InvalidAddress,
    IoError(String),
    Internal,
    InvalidCommand(CorruptRecord),
    InvalidId,
}

/// The liveness rule: the first three bytes read back must be the ASCII
/// letters of `yes`.
pub open spec fn liveness_ok(reply: Seq<u8>) -> bool {
    reply.len() >= 3 && reply[0] == 121 && reply[1] == 101 && reply[2] == 115
}

/// Decides whether a probe reply passes the liveness check.
pub fn liveness_accepts(reply: &Vec<u8>) -> (r: bool)
    ensures
        r == liveness_ok(reply@),
{
    reply.len() >= 3 && reply[0] == 121 && reply[1] == 101 && reply[2] == 115
}

/// The live handler for an Arduino actionner: it dials this address for
/// every probe and every command.
pub struct ArduinoHandler {
    pub address: String,
}

/// Placeholder for the unimplemented SSH protocol; no value of it can
/// be built, since construction fails closed on SSH.
pub struct SshHandler {}

/// A live handler over one protocol variant.
pub enum Handler {
    Arduino(ArduinoHandler),
    SSH(SshHandler),
}

/// Whether handler construction succeeds for a protocol and a probe
/// outcome: only an Arduino whose probe reply passes the liveness check
/// is accepted.
pub open spec fn handler_accepts(protocol: Protocol, probe: ProbeOutcome) -> bool {
    protocol is Arduino && (probe matches ProbeOutcome::Reply(b) && liveness_ok(b@))
}

/// The failure reported when handler construction is refused: the probe
/// failure itself for an unreachable remote, otherwise an internal
/// condition (a refused liveness check, or the unsupported SSH path).
pub open spec fn handler_failure(protocol: Protocol, probe: ProbeOutcome) -> HandlerError {
    if protocol is SSH {
        HandlerError::Internal
    } else {
        match probe {
            ProbeOutcome::Reply(_) => HandlerError::Internal,
            ProbeOutcome::IoFailed(m) => HandlerError::IoError(m),
            ProbeOutcome::NotAttempted => HandlerError::Internal,
        }
    }
}

/// An outbound frame: the remote to dial and the bytes to write there.
#[derive(Debug)]
pub struct OutboundFrame {
    pub address: String,
    pub payload: Vec<u8>,
}

/// The mathematical value of an [`OutboundFrame`].
pub ghost struct OutboundView {
    pub address: Seq<char>,
    pub payload: Seq<u8>,
}

impl View for OutboundFrame {
    type V = OutboundView;

    open spec fn view(&self) -> OutboundView {
        OutboundView { address: self.address@, payload: self.payload@ }
    }
}

impl Handler {
    /// Which handlers can currently exist: construction only ever
    /// accepts the Arduino variant.
    pub open spec fn wf(&self) -> bool {
        self is Arduino
    }

    /// The protocol variant of the handler.
    pub open spec fn spec_protocol(&self) -> Protocol {
        match self {
            Handler::Arduino(_) => Protocol::Arduino,
            Handler::SSH(_) => Protocol::SSH,
        }
    }

    /// The remote address the handler dials.
    pub open spec fn spec_address(&self) -> Seq<char> {
        match self {
            Handler::Arduino(h) => h.address@,
            Handler::SSH(_) => Seq::empty(),
        }
    }

    /// The protocol variant of the handler.
    pub fn protocol(&self) -> (r: Protocol)
        ensures
            r == self.spec_protocol(),
    {
        match self {
            Handler::Arduino(_) => Protocol::Arduino,
            Handler::SSH(_) => Protocol::SSH,
        }
    }

    /// The probe a remote must answer before a handler over `protocol`
    /// is accepted: the frame to write, or nothing when the protocol
    /// has no probe (the registration then fails closed).
    pub fn probe_plan(protocol: &Protocol) -> (r: Option<Vec<u8>>)
        ensures
            protocol is Arduino ==> (r matches Some(f) && f@ == frame_bytes(
                ArduinoCommand::Check,
                0,
            )),
            protocol is SSH ==> r is None,
    {
        match protocol {
            Protocol::Arduino => Some(ArduinoCommand::Check.frame(0)),
            Protocol::SSH => None,
        }
    }

    /// Builds the handler for a validated registration; `probe` is what
    /// the caller's probe of `remote` produced.  Accepted exactly when
    /// the protocol is Arduino and the reply passes the liveness check;
    /// SSH construction fails closed as unsupported.
    pub fn new(protocol: Protocol, remote: String, probe: ProbeOutcome) -> (r: Result<
        Handler,
        HandlerError,
    >)
        ensures
            handler_accepts(protocol, probe) ==> (r matches Ok(h) && h.wf() && h.spec_protocol()
                == protocol && h.spec_address() == remote@),
            !handler_accepts(protocol, probe) ==> r == Err::<Handler, HandlerError>(
                handler_failure(protocol, probe),
            ),
    {
        match protocol {
            Protocol::SSH => Err(HandlerError::Internal),
            Protocol::Arduino => match probe {
                ProbeOutcome::Reply(b) => {
                    if liveness_accepts(&b) {
                        Ok(Handler::Arduino(ArduinoHandler { address: remote }))
                    } else {
                        Err(HandlerError::Internal)
                    }
                },
                ProbeOutcome::IoFailed(m) => Err(HandlerError::IoError(m)),
                ProbeOutcome::NotAttempted => Err(HandlerError::Internal),
            },
        }
    }

    /// Translates an opaque command for `object` into the frame to
    /// write: `InvalidId` when the device's sub-identifier does not
    /// match the handler's protocol, `InvalidCommand` when the payload
    /// does not parse, otherwise the protocol frame for the device's
    /// index, aimed at the handler's address.
    pub fn command(&self, command: &[u8], object: &Object) -> (r: Result<
        OutboundFrame,
        HandlerError,
    >)
        requires
            self.wf(),
        ensures
            r matches Ok(f) ==> command_verdict(*self, object@, command@) == Ok::<
                OutboundView,
                HandlerError,
            >(f@),
            r matches Err(e) ==> command_verdict(*self, object@, command@) == Err::<
                OutboundView,
                HandlerError,
            >(e),
    {
        match self {
            Handler::Arduino(ard) => match &object.id_in_actionner {
                ActionnerId::Arduino(n) => match decode_command(command) {
                    Some(c) => {
                        let payload = c.frame(*n);
                        Ok(OutboundFrame { address: ard.address.clone(), payload })
                    },
                    None => Err(HandlerError::InvalidCommand(CorruptRecord {})),
                },
                ActionnerId::SSH(_) => Err(HandlerError::InvalidId),
            },
            Handler::SSH(_) => {
                // unreachable: a well-formed handler is an Arduino one
                proof {
                    assert(false);
                }
                Err(HandlerError::Internal)
            },
        }
    }
}

/// What `Handler::command` yields for a handler, a device and a
/// payload.
pub open spec fn command_verdict(
    h: Handler,
    device: ObjectView,
    payload: Seq<u8>,
) -> Result<OutboundView, HandlerError> {
    match device.id_in_actionner {
        ActionnerIdView::Arduino(n) => match parse_payload(payload) {
            Some(c) => Ok(
                OutboundView { address: h.spec_address(), payload: frame_bytes(c, n as int) },
            ),
            None => Err(HandlerError::InvalidCommand(CorruptRecord {})),
        },
        ActionnerIdView::SSH(_) => Err(HandlerError::InvalidId),
    }
}

} // verus!
