//! The entity types of the registries: device kinds, wire protocols, the
//! protocol-specific sub-identifier of a device inside its actionner, and
//! the persisted device descriptor itself.

use vstd::prelude::*;
use crate::text::{eq_ignore_ascii_case, i8_to_string, int_repr, lower_seq};

verus! {

/// A wire protocol over which an actionner is reachable.
#[derive(Clone, Copy, PartialEq, Eq, Structural, Debug)]
pub enum Protocol {
    Arduino,
    SSH,
}

/// The human-readable name of a protocol.
pub open spec fn protocol_name(p: Protocol) -> Seq<char> {
    match p {
        Protocol::Arduino => "Arduino"@,
        Protocol::SSH => "SSH"@,
    }
}

/// The protocol a request names, matched ignoring ASCII case.
pub open spec fn protocol_parse(s: Seq<char>) -> Option<Protocol> {
    if lower_seq(s) == "arduino"@ {
        Some(Protocol::Arduino)
    } else if lower_seq(s) == "ssh"@ {
        Some(Protocol::SSH)
    } else {
        None
    }
}

impl Protocol {
    /// The display name of the protocol variant.
    pub fn name(&self) -> (r: String)
        ensures
            r@ == protocol_name(*self),
    {
        match self {
            Protocol::Arduino => String::from_str("Arduino"),
            Protocol::SSH => String::from_str("SSH"),
        }
    }

    /// Parses a protocol name from a request, ignoring ASCII case.
    pub fn parse(s: &str) -> (r: Option<Protocol>)
        ensures
            r == protocol_parse(s@),
    {
        proof {
            reveal_strlit("arduino");
            reveal_strlit("ssh");
            assert(lower_seq("arduino"@) =~= "arduino"@);
            assert(lower_seq("ssh"@) =~= "ssh"@);
        }
        if eq_ignore_ascii_case(s, "arduino") {
            Some(Protocol::Arduino)
        } else if eq_ignore_ascii_case(s, "ssh") {
            Some(Protocol::SSH)
        } else {
            None
        }
    }
}

/// A category of device.
#[derive(Clone, Copy, PartialEq, Eq, Structural, Debug)]
pub enum ObjectKind {
    LED,
}

/// The human-readable name of a device kind.
pub open spec fn kind_name(k: ObjectKind) -> Seq<char> {
    match k {
        ObjectKind::LED => "LED"@,
    }
}

/// The stable numeric id of a device kind.
pub open spec fn kind_id(k: ObjectKind) -> u32 {
    match k {
        ObjectKind::LED => 1,
    }
}

/// The device kind a request names, matched ignoring ASCII case.
pub open spec fn kind_parse(s: Seq<char>) -> Option<ObjectKind> {
    if lower_seq(s) == "led"@ {
        Some(ObjectKind::LED)
    } else {
        None
    }
}

impl ObjectKind {
    /// The display name of the kind.
    pub fn name(&self) -> (r: String)
        ensures
            r@ == kind_name(*self),
    {
        match self {
            ObjectKind::LED => String::from_str("LED"),
        }
    }

    /// The stable numeric id of the kind.
    pub fn id(&self) -> (r: u32)
        ensures
            r == kind_id(*self),
    {
        match self {
            ObjectKind::LED => 1,
        }
    }

    /// Parses a device-kind name from a request, ignoring ASCII case.
    pub fn parse(s: &str) -> (r: Option<ObjectKind>)
        ensures
            r == kind_parse(s@),
    {
        proof {
            reveal_strlit("led");
            assert(lower_seq("led"@) =~= "led"@);
        }
        if eq_ignore_ascii_case(s, "led") {
            Some(ObjectKind::LED)
        } else {
            None
        }
    }
}

/// How a device is addressed inside its actionner; the shape depends on
/// the owning actionner's protocol.
pub enum ActionnerId {
    Arduino(i8),
    SSH(String),
}

/// The mathematical value of an [`ActionnerId`].
pub ghost enum ActionnerIdView {
    Arduino(i8),
    SSH(Seq<char>),
}

impl View for ActionnerId {
    type V = ActionnerIdView;

    open spec fn view(&self) -> ActionnerIdView {
        match self {
            ActionnerId::Arduino(n) => ActionnerIdView::Arduino(*n),
            ActionnerId::SSH(s) => ActionnerIdView::SSH(s@),
        }
    }
}

/// The display form of a sub-identifier: the decimal index for Arduino,
/// the string itself for SSH.
pub open spec fn actionner_id_repr(v: ActionnerIdView) -> Seq<char> {
    match v {
        ActionnerIdView::Arduino(n) => int_repr(n as int),
        ActionnerIdView::SSH(s) => s,
    }
}

impl ActionnerId {
    /// The display form of the sub-identifier.
    pub fn repr(&self) -> (r: String)
        ensures
            r@ == actionner_id_repr(self@),
    {
        match self {
            ActionnerId::Arduino(n) => i8_to_string(*n),
            ActionnerId::SSH(s) => s.clone(),
        }
    }
}

/// A persisted actionner descriptor.
pub struct ActionnerData {
    pub protocol: Protocol,
    pub remote: String,
    pub name: String,
}

/// The mathematical value of an [`ActionnerData`].
pub ghost struct ActionnerView {
    pub protocol: Protocol,
    pub remote: Seq<char>,
    pub name: Seq<char>,
}

impl View for ActionnerData {
    type V = ActionnerView;

    open spec fn view(&self) -> ActionnerView {
        ActionnerView { protocol: self.protocol, remote: self.remote@, name: self.name@ }
    }
}

/// A persisted device descriptor.
pub struct Object {
    pub actionner_id: u32,
    pub id_in_actionner: ActionnerId,
    pub kind: ObjectKind,
    pub name: String,
}

/// The mathematical value of an [`Object`].
pub ghost struct ObjectView {
    pub actionner_id: u32,
    pub id_in_actionner: ActionnerIdView,
    pub kind: ObjectKind,
    pub name: Seq<char>,
}

impl View for Object {
    type V = ObjectView;

    open spec fn view(&self) -> ObjectView {
        ObjectView {
            actionner_id: self.actionner_id,
            id_in_actionner: self.id_in_actionner@,
            kind: self.kind,
            name: self.name@,
        }
    }
}

} // verus!
