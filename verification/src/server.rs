//! The service facade exposed to the RPC layer: request validation,
//! the five operations over the two registries, and the mapping of
//! registry and handler failures to RPC status categories.  The facade
//! owns both registries; callers serialize access to it and perform
//! the network probes and sends whose outcomes it decides on.

use vstd::prelude::*;
use crate::actionners::{act_verdict, ActionnerEntry, ActionnerError, Actionners};
use crate::commands::{frame_bytes, ArduinoCommand};
use crate::devices::{DeviceError, Devices};
use crate::handler::{handler_accepts, handler_failure, HandlerError, OutboundFrame, ProbeOutcome};
use crate::objects::{
    actionner_id_repr, kind_id, kind_name, kind_parse, protocol_parse, ActionnerData, ActionnerId,
    ActionnerIdView, ActionnerView, ObjectKind, ObjectView, Protocol,
};
use crate::text::{parse_i8, parse_i8_spec};

verus! {

/// The category of a client-facing failure.
#[derive(Clone, Copy, PartialEq, Eq, Structural, Debug)]
pub enum Code {
    InvalidArgument,
    NotFound,
    Aborted,
    Internal,
}

/// A client-facing failure: a stable category and a short message.
#[derive(Debug)]
pub struct Status {
    pub code: Code,
    pub message: String,
}

/// A failure while assembling the server at startup.
#[derive(Debug)]
pub enum ServerCreationError {
    Sled(sled::Error),
    Actionners(ActionnerError),
    Devices(DeviceError),
}

/// One row of the device listing shown to clients.
#[derive(Debug)]
pub struct DeviceEntry {
    pub id: u32,
    pub actionner_id: u32,
    pub kind: String,
    pub kind_id: u32,
    pub name: String,
    pub id_in_actionner: String,
}

/// Whether a listing row shows exactly the device that `m` holds under
/// its id.
pub open spec fn entry_shows(m: Map<u32, ObjectView>, e: DeviceEntry) -> bool {
    &&& m.contains_key(e.id)
    &&& e.actionner_id == m[e.id].actionner_id
    &&& e.kind@ == kind_name(m[e.id].kind)
    &&& e.kind_id == kind_id(m[e.id].kind)
    &&& e.name@ == m[e.id].name
    &&& e.id_in_actionner@ == actionner_id_repr(m[e.id].id_in_actionner)
}

/// The device descriptor a validated registration request denotes.
pub open spec fn requested_object(
    actionner_id: u32,
    kind: ObjectKind,
    sub: i8,
    name: Seq<char>,
) -> ObjectView {
    ObjectView { actionner_id, id_in_actionner: ActionnerIdView::Arduino(sub), kind, name }
}

/// Whether a device listing mentions the id `id`.
pub open spec fn listing_has(l: Seq<DeviceEntry>, id: u32) -> bool {
    exists|i: int| 0 <= i < l.len() && #[trigger] l[i].id == id
}

/// The status category for a handler failure during registration.
pub open spec fn handler_status_code(e: HandlerError) -> Code {
    match e {
        HandlerError::IoError(_) => Code::Aborted,
        HandlerError::InvalidAddress => Code::InvalidArgument,
        HandlerError::Internal => Code::Internal,
        HandlerError::InvalidCommand(_) => Code::Internal,
        HandlerError::InvalidId => Code::Internal,
    }
}

/// The status message for a handler failure during registration.
pub open spec fn handler_status_message(e: HandlerError) -> Seq<char> {
    match e {
        HandlerError::IoError(m) => "could not create handler: "@ + m@,
        HandlerError::InvalidAddress => "invalid address"@,
        HandlerError::Internal => "error creating handler"@,
        HandlerError::InvalidCommand(_) => "internal error"@,
        HandlerError::InvalidId => "internal error"@,
    }
}

/// The service facade: both registries under one owner.
pub struct HomeServer {
    pub devices: Devices,
    pub actionners: Actionners,
}

impl HomeServer {
    /// Both registries hold their invariants.
    pub open spec fn wf(&self) -> bool {
        self.devices.wf() && self.actionners.wf()
    }

    /// Assembles the server once the actionner registry is resolved:
    /// opens the device store under the same data directory and
    /// reconciles it against the live actionner ids, so every held
    /// device references a live actionner.
    pub fn open(data_dir: &str, actionners: Actionners) -> (r: Result<
        HomeServer,
        ServerCreationError,
    >)
        requires
            actionners.wf(),
        ensures
            r matches Ok(s) ==> s.wf() && s.actionners == actionners && forall|id: u32|
                #[trigger] s.devices.contents().contains_key(id)
                    ==> actionners.contents().contains_key(
                    s.devices.contents()[id].actionner_id,
                ),
            r matches Err(e) ==> e is Devices,
    {
        let known = actionners.get_known();
        let devices = match Devices::open(data_dir, &known) {
            Ok(d) => d,
            Err(e) => {
                return Err(ServerCreationError::Devices(e));
            },
        };
        proof {
            assert forall|id: u32| #[trigger]
                devices.contents().contains_key(id) implies actionners.contents().contains_key(
                devices.contents()[id].actionner_id,
            ) by {
                let aid = devices.contents()[id].actionner_id;
                assert(known@.contains(aid));
                let i = choose|i: int| 0 <= i < known@.len() && known@[i] == aid;
                assert(actionners.contents().contains_key(known@[i]));
            }
        }
        Ok(HomeServer { devices, actionners })
    }

    /// Lists every registered device with its display fields.
    pub fn list_device(&self) -> (r: Result<Vec<DeviceEntry>, Status>)
        requires
            self.wf(),
        ensures
            r matches Ok(l) ==> forall|i: int|
                0 <= i < l@.len() ==> entry_shows(self.devices.contents(), #[trigger] l@[i]),
            r matches Ok(l) ==> forall|id: u32|
                #[trigger] self.devices.contents().contains_key(id) ==> listing_has(l@, id),
            r matches Ok(l) ==> forall|i: int, j: int|
                0 <= i < j < l@.len() ==> l@[i].id != l@[j].id,
            r matches Err(e) ==> e.code == Code::Internal && e.message@ == "internal error"@,
    {
        let list = match self.devices.list() {
            Ok(l) => l,
            Err(_) => {
                return Err(
                    Status { code: Code::Internal, message: String::from_str("internal error") },
                );
            },
        };
        let mut out: Vec<DeviceEntry> = Vec::new();
        let mut i: usize = 0;
        while i < list.len()
            invariant
                self.wf(),
                0 <= i <= list@.len(),
                out@.len() == i,
                forall|j: int|
                    0 <= j < list@.len() ==> self.devices.contents().contains_key(
                        #[trigger] list@[j].0,
                    ) && list@[j].1@ == self.devices.contents()[list@[j].0],
                forall|j1: int, j2: int|
                    0 <= j1 < j2 < list@.len() ==> list@[j1].0 != list@[j2].0,
                forall|j: int|
                    0 <= j < i ==> #[trigger] out@[j].id == list@[j].0 && entry_shows(
                        self.devices.contents(),
                        out@[j],
                    ),
            decreases list@.len() - i,
        {
            let entry = &list[i];
            let kind = entry.1.kind.name();
            let kind_num = entry.1.kind.id();
            let sub = entry.1.id_in_actionner.repr();
            let name = entry.1.name.clone();
            out.push(
                DeviceEntry {
                    id: entry.0,
                    actionner_id: entry.1.actionner_id,
                    kind,
                    kind_id: kind_num,
                    name,
                    id_in_actionner: sub,
                },
            );
            i = i + 1;
        }
        proof {
            assert forall|id: u32| #[trigger]
                self.devices.contents().contains_key(id) implies listing_has(out@, id) by {
                assert(crate::devices::lists_id(list@, id));
                let j = choose|j: int| 0 <= j < list@.len() && #[trigger] list@[j].0 == id;
                assert(out@[j].id == id);
            }
        }
        Ok(out)
    }

    /// Registers a device: validates the kind name, requires a live
    /// owning actionner, validates the sub-identifier against that
    /// actionner's protocol, and persists the descriptor.  The
    /// actionner registry is never touched.
    pub fn register_device(
        &mut self,
        kind_req: &str,
        actionner_id: u32,
        name: String,
        id_in_actionner_req: &str,
    ) -> (r: Result<u32, Status>)
        requires
            old(self).wf(),
            old(self).devices.next_id() < u32::MAX,
        ensures
            final(self).wf(),
            final(self).actionners == old(self).actionners,
            kind_parse(kind_req@) is None ==> (r matches Err(e) && e.code == Code::InvalidArgument
                && e.message@ == "invalid category"@ && final(self).devices == old(self).devices),
            kind_parse(kind_req@) is Some && !old(self).actionners.contents().contains_key(
                actionner_id,
            ) ==> (r matches Err(e) && e.code == Code::NotFound && e.message@
                == "actionner not found"@ && final(self).devices == old(self).devices),
            kind_parse(kind_req@) is Some && old(self).actionners.contents().contains_key(
                actionner_id,
            ) && old(self).actionners.contents()[actionner_id].protocol is Arduino && parse_i8_spec(
                id_in_actionner_req@,
            ) is None ==> (r matches Err(e) && e.code == Code::InvalidArgument && e.message@
                == "invalid id for protocol"@ && final(self).devices == old(self).devices),
            kind_parse(kind_req@) is Some && old(self).actionners.contents().contains_key(
                actionner_id,
            ) && old(self).actionners.contents()[actionner_id].protocol is Arduino && parse_i8_spec(
                id_in_actionner_req@,
            ) is Some ==> {
                let requested = requested_object(
                    actionner_id,
                    kind_parse(kind_req@)->Some_0,
                    parse_i8_spec(id_in_actionner_req@)->Some_0,
                    name@,
                );
                &&& final(self).devices.next_id() == old(self).devices.next_id() + 1
                &&& (r matches Ok(id) && id == old(self).devices.next_id() && final(self).devices.contents() == old(self).devices.contents().insert(
                    id,
                    requested,
                )) || (r matches Err(e) && e.code == Code::Internal && e.message@
                    == Seq::<char>::empty() && (final(self).devices.contents() == old(self).devices.contents()
                    || final(self).devices.contents() == old(self).devices.contents().insert(
                    old(self).devices.next_id(),
                    requested,
                )))
            },
    {
        let kind = match ObjectKind::parse(kind_req) {
            Some(k) => k,
            None => {
                return Err(
                    Status {
                        code: Code::InvalidArgument,
                        message: String::from_str("invalid category"),
                    },
                );
            },
        };
        let protocol = match self.actionners.protocol(actionner_id) {
            Some(p) => p,
            None => {
                return Err(
                    Status {
                        code: Code::NotFound,
                        message: String::from_str("actionner not found"),
                    },
                );
            },
        };
        let id_in_actionner = match protocol {
            Protocol::Arduino => match parse_i8(id_in_actionner_req) {
                Some(n) => ActionnerId::Arduino(n),
                None => {
                    return Err(
                        Status {
                            code: Code::InvalidArgument,
                            message: String::from_str("invalid id for protocol"),
                        },
                    );
                },
            },
            Protocol::SSH => {
                // unreachable: every live actionner is an Arduino one
                proof {
                    self.actionners.lemma_protocol_arduino(actionner_id);
                    assert(false);
                }
                return Err(
                    Status { code: Code::Internal, message: String::from_str("internal error") },
                );
            },
        };
        match self.devices.add(kind, actionner_id, name, id_in_actionner) {
            Ok(id) => Ok(id),
            Err(_) => Err(Status { code: Code::Internal, message: String::new() }),
        }
    }

    /// Lists every live actionner with its display fields.
    pub fn list_actionner(&self) -> (r: Vec<ActionnerEntry>)
        requires
            self.wf(),
        ensures
            forall|i: int|
                0 <= i < r@.len() ==> self.actionners.contents().contains_key(#[trigger] r@[i].id)
                    && r@[i].name@ == self.actionners.contents()[r@[i].id].name && r@[i].protocol@
                    == crate::objects::protocol_name(self.actionners.contents()[r@[i].id].protocol),
            forall|id: u32|
                #[trigger] self.actionners.contents().contains_key(id) ==> exists|i: int|
                    0 <= i < r@.len() && #[trigger] r@[i].id == id,
            forall|i: int, j: int| 0 <= i < j < r@.len() ==> r@[i].id != r@[j].id,
    {
        self.actionners.get_list()
    }

    /// Validates a registration request far enough to know what probe
    /// the caller owes: the probe frame for a parsed protocol, nothing
    /// for a protocol without a probe, `InvalidArgument` for an
    /// unknown protocol name.
    pub fn register_actionner_plan(protocol_req: &str) -> (r: Result<Option<Vec<u8>>, Status>)
        ensures
            protocol_parse(protocol_req@) is None ==> (r matches Err(e) && e.code
                == Code::InvalidArgument && e.message@ == "invalid protocol"@),
            protocol_parse(protocol_req@) == Some(Protocol::Arduino) ==> (r matches Ok(p) && (
            p matches Some(f) && f@ == frame_bytes(ArduinoCommand::Check, 0))),
            protocol_parse(protocol_req@) == Some(Protocol::SSH) ==> (r matches Ok(p)
                && p is None),
    {
        match Protocol::parse(protocol_req) {
            None => Err(
                Status {
                    code: Code::InvalidArgument,
                    message: String::from_str("invalid protocol"),
                },
            ),
            Some(p) => Ok(crate::handler::Handler::probe_plan(&p)),
        }
    }

    /// Registers an actionner: validates the protocol name, builds the
    /// handler from the caller's probe outcome, and accepts the
    /// registration only when the handler is accepted.  A refused
    /// probe leaves both registries' contents unchanged.  The device
    /// registry is never touched.
    pub fn register_actionner(
        &mut self,
        name: String,
        protocol_req: &str,
        remote: String,
        probe: ProbeOutcome,
    ) -> (r: Result<u32, Status>)
        requires
            old(self).wf(),
            old(self).actionners.next_id() < u32::MAX,
        ensures
            final(self).wf(),
            final(self).devices == old(self).devices,
            protocol_parse(protocol_req@) is None ==> (r matches Err(e) && e.code
                == Code::InvalidArgument && e.message@ == "invalid protocol"@ && final(self).actionners == old(self).actionners),
            protocol_parse(protocol_req@) is Some && !handler_accepts(
                protocol_parse(protocol_req@)->Some_0,
                probe,
            ) ==> {
                &&& final(self).actionners.contents() == old(self).actionners.contents()
                &&& final(self).actionners.store_view() == old(self).actionners.store_view()
                &&& (r matches Err(e) && e.code == handler_status_code(
                    handler_failure(protocol_parse(protocol_req@)->Some_0, probe),
                ) && e.message@ == handler_status_message(
                    handler_failure(protocol_parse(protocol_req@)->Some_0, probe),
                ))
            },
            protocol_parse(protocol_req@) is Some && handler_accepts(
                protocol_parse(protocol_req@)->Some_0,
                probe,
            ) ==> ((r matches Ok(id) && id == old(self).actionners.next_id() && final(self).actionners.contents() == old(self).actionners.contents().insert(
                id,
                ActionnerView {
                    protocol: protocol_parse(protocol_req@)->Some_0,
                    remote: remote@,
                    name: name@,
                },
            )) || (r matches Err(e) && e.code == Code::Internal && e.message@
                == "internal error"@ && final(self).actionners.contents() == old(self).actionners.contents())),
    {
        let protocol = match Protocol::parse(protocol_req) {
            Some(p) => p,
            None => {
                return Err(
                    Status {
                        code: Code::InvalidArgument,
                        message: String::from_str("invalid protocol"),
                    },
                );
            },
        };
        let data = ActionnerData { protocol, remote, name };
        match self.actionners.add(data, probe) {
            Ok(id) => Ok(id),
            Err(ActionnerError::Handler(HandlerError::IoError(m))) => {
                let mut message = String::from_str("could not create handler: ");
                message.append(m.as_str());
                Err(Status { code: Code::Aborted, message })
            },
            Err(ActionnerError::Handler(HandlerError::InvalidAddress)) => Err(
                Status {
                    code: Code::InvalidArgument,
                    message: String::from_str("invalid address"),
                },
            ),
            Err(ActionnerError::Handler(HandlerError::Internal)) => Err(
                Status {
                    code: Code::Internal,
                    message: String::from_str("error creating handler"),
                },
            ),
            Err(_) => Err(
                Status { code: Code::Internal, message: String::from_str("internal error") },
            ),
        }
    }

    /// Resolves a command request: looks the device up, forwards to
    /// the live handler of its owning actionner, and returns the frame
    /// the caller must write — or nothing when the actionner has
    /// vanished since the device was registered.
    pub fn command(&self, object_id: u32, command: &[u8]) -> (r: Result<
        Option<OutboundFrame>,
        Status,
    >)
        requires
            self.wf(),
        ensures
            r matches Ok(f) ==> self.devices.contents().contains_key(object_id) && (if self
                .actionners.contents().contains_key(
                self.devices.contents()[object_id].actionner_id,
            ) {
                f matches Some(fr) && act_verdict(
                    self.actionners.contents()[self.devices.contents()[object_id].actionner_id],
                    self.devices.contents()[object_id],
                    command@,
                ) == Ok::<crate::handler::OutboundView, HandlerError>(fr@)
            } else {
                f is None
            }),
            r matches Err(e) ==> (e.code == Code::NotFound || e.code == Code::Internal) && (e.code
                == Code::NotFound ==> !self.devices.contents().contains_key(object_id)
                && e.message@ == "device not found"@),
    {
        let obj = match self.devices.get(object_id) {
            Err(_) => {
                return Err(Status { code: Code::Internal, message: String::new() });
            },
            Ok(None) => {
                return Err(
                    Status { code: Code::NotFound, message: String::from_str("device not found") },
                );
            },
            Ok(Some(obj)) => obj,
        };
        match self.actionners.act(command, &obj) {
            Ok(f) => Ok(f),
            Err(_) => Err(Status { code: Code::Internal, message: String::new() }),
        }
    }

    /// The reply sent for a command once its frame, if any, was
    /// written: an empty acknowledgement on success, an internal
    /// failure otherwise — no confirmation of physical effect is
    /// round-tripped.
    pub fn command_reply(send_result: Result<(), String>) -> (r: Result<String, Status>)
        ensures
            send_result is Ok ==> (r matches Ok(s) && s@ == Seq::<char>::empty()),
            send_result is Err ==> (r matches Err(e) && e.code == Code::Internal && e.message@
                == Seq::<char>::empty()),
    {
        match send_result {
            Ok(()) => Ok(String::new()),
            Err(_) => Err(Status { code: Code::Internal, message: String::new() }),
        }
    }
}

} // verus!
