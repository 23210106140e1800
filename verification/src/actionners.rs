//! The actionner registry: persistent descriptors, the in-memory live
//! handlers rebuilt at startup, id allocation, and the eviction of
//! descriptors whose handler cannot be revived.
//!
//! Opening is split in two: a scan that returns the stored descriptors
//! still awaiting their liveness probes, and a resolution step that
//! turns the caller's probe outcomes into live handlers or evictions.

use vstd::prelude::*;
use crate::codec::{
    actionner_bytes, decode_actionner, decode_key, encode_actionner, encode_key, key_bytes,
    key_id, lemma_actionner_round_trip, lemma_key_canonical, lemma_key_round_trip,
    parse_actionner, CorruptRecord,
};
use crate::commands::{frame_bytes, parse_payload};
use crate::handler::{
    handler_accepts, handler_failure, Handler, HandlerError, OutboundFrame, OutboundView,
    ProbeOutcome,
};
use crate::objects::{ActionnerData, ActionnerIdView, ActionnerView, Object, ObjectView, Protocol,
    protocol_name};
use crate::store::{db_entries, db_insert, db_open, db_remove, db_view};

verus! {

/// A failure of the actionner registry.
#[derive(Debug)]
pub enum ActionnerError {
    SerDeError(CorruptRecord),
    Handler(HandlerError),
    Database(sled::Error),
}

/// A live actionner: its display name and its ready handler.
pub struct Actionner {
    pub handler: Handler,
    pub name: String,
}

/// One row of the actionner listing shown to clients.
#[derive(Debug)]
pub struct ActionnerEntry {
    pub id: u32,
    pub name: String,
    pub protocol: String,
}

/// Whether a live entry agrees with the persisted descriptor of the
/// same id.
pub open spec fn live_matches(descs: Map<u32, ActionnerView>, id: u32, a: Actionner) -> bool {
    &&& descs.contains_key(id)
    &&& a.handler.wf()
    &&& a.handler.spec_protocol() == descs[id].protocol
    &&& a.handler.spec_address() == descs[id].remote
    &&& a.name@ == descs[id].name
}

/// Whether the live list mentions the actionner id `id`.
pub open spec fn lives_id(l: Seq<(u32, Actionner)>, id: u32) -> bool {
    exists|i: int| 0 <= i < l.len() && #[trigger] l[i].0 == id
}

/// Whether the pending list mentions the actionner id `id`.
pub open spec fn pending_has(l: Seq<(u32, ActionnerData)>, id: u32) -> bool {
    exists|i: int| 0 <= i < l.len() && #[trigger] l[i].0 == id
}

/// Whether the first `n` pending entries mention the actionner id `id`.
pub open spec fn pending_prefix_has(l: Seq<(u32, ActionnerData)>, n: int, id: u32) -> bool {
    exists|j: int| 0 <= j < n && #[trigger] l[j].0 == id
}

/// What forwarding a command to the live actionner described by `av`
/// yields for a device and a payload.
pub open spec fn act_verdict(
    av: ActionnerView,
    device: ObjectView,
    payload: Seq<u8>,
) -> Result<OutboundView, HandlerError> {
    match device.id_in_actionner {
        ActionnerIdView::Arduino(n) => match parse_payload(payload) {
            Some(c) => Ok(OutboundView { address: av.remote, payload: frame_bytes(c, n as int) }),
            None => Err(HandlerError::InvalidCommand(CorruptRecord {})),
        },
        ActionnerIdView::SSH(_) => Err(HandlerError::InvalidId),
    }
}

/// The persistent actionner registry with its live handlers.
pub struct Actionners {
    actionner_data: sled::Db,
    actionners: Vec<(u32, Actionner)>,
    next_id_to_assign: u32,
    descs: Ghost<Map<u32, ActionnerView>>,
}

impl Actionners {
    /// The descriptors the registry holds, by actionner id; every one
    /// of them has a live handler.
    pub closed spec fn contents(&self) -> Map<u32, ActionnerView> {
        self.descs@
    }

    /// The next id the registry will assign.
    pub closed spec fn next_id(&self) -> u32 {
        self.next_id_to_assign
    }

    /// The raw contents of the backing store.  Every live descriptor is
    /// persisted in it; a registration whose store write failed may
    /// additionally have left its own record behind, to be revived or
    /// evicted at the next open.
    pub closed spec fn store_view(&self) -> Map<Seq<u8>, Seq<u8>> {
        db_view(self.actionner_data)
    }

    /// The registry invariant: the model is the live registry, every
    /// live descriptor is persisted, and the store holds nothing but
    /// well-formed records below the id counter.
    pub closed spec fn wf(&self) -> bool {
        &&& forall|k: Seq<u8>|
            #[trigger] db_view(self.actionner_data).dom().contains(k) ==> k.len() == 4 && key_id(k)
                < self.next_id_to_assign && parse_actionner(db_view(self.actionner_data)[k]) is Some
        &&& forall|id: u32|
            #[trigger] self.descs@.contains_key(id) ==> db_view(
                self.actionner_data,
            ).dom().contains(key_bytes(id)) && parse_actionner(
                db_view(self.actionner_data)[key_bytes(id)],
            ) == Some(self.descs@[id])
        &&& forall|id: u32| #[trigger] self.descs@.contains_key(id) ==> id < self.next_id_to_assign
        &&& forall|i: int|
            0 <= i < self.actionners@.len() ==> live_matches(
                self.descs@,
                #[trigger] self.actionners@[i].0,
                self.actionners@[i].1,
            )
        &&& forall|i: int, j: int|
            0 <= i < j < self.actionners@.len() ==> self.actionners@[i].0
                != self.actionners@[j].0
        &&& forall|id: u32|
            #[trigger] self.descs@.contains_key(id) ==> lives_id(self.actionners@, id)
    }

    /// Whether the id space is used up: the next `add` would have no
    /// id left to assign.
    pub fn ids_exhausted(&self) -> (r: bool)
        ensures
            r == (self.next_id() == u32::MAX),
    {
        self.next_id_to_assign == u32::MAX
    }

    /// Every descriptor a well-formed registry holds is an Arduino
    /// one: registration and startup resolution only accept handlers
    /// whose liveness probe succeeded, and only the Arduino protocol
    /// has a probe.
    pub proof fn lemma_protocol_arduino(&self, id: u32)
        requires
            self.wf(),
            self.contents().contains_key(id),
        ensures
            self.contents()[id].protocol is Arduino,
    {
        assert(lives_id(self.actionners@, id));
        let i = choose|i: int|
            0 <= i < self.actionners@.len() && #[trigger] self.actionners@[i].0 == id;
        assert(live_matches(self.descs@, self.actionners@[i].0, self.actionners@[i].1));
    }

    /// Opens or creates the actionner store under `root` and scans it:
    /// the stored descriptors come back awaiting their liveness probes,
    /// and [`PendingActionners::resolve`] turns the probe outcomes into
    /// the live registry.
    pub fn open(root: &str) -> (r: Result<PendingActionners, ActionnerError>)
        ensures
            r matches Ok(p) ==> p.wf(),
    {
        let mut path = String::from_str(root);
        path.append("/actionners");
        let db = match db_open(path.as_str()) {
            Ok(db) => db,
            Err(e) => {
                return Err(ActionnerError::Database(e));
            },
        };
        PendingActionners::open_scan(db)
    }

    /// Registers an actionner: allocates the next id, builds its
    /// handler from the caller's probe outcome, and only if the handler
    /// is accepted persists the descriptor and inserts the live entry.
    /// The id counter advances even when registration fails, so ids are
    /// never reused.
    pub fn add(&mut self, data: ActionnerData, probe: ProbeOutcome) -> (r: Result<
        u32,
        ActionnerError,
    >)
        requires
            old(self).wf(),
            old(self).next_id() < u32::MAX,
        ensures
            final(self).wf(),
            final(self).next_id() == old(self).next_id() + 1,
            handler_accepts(data.protocol, probe) ==> ((r matches Ok(id) && id == old(self).next_id() && final(self).contents() == old(self).contents().insert(id, data@)
                && final(self).store_view() == old(self).store_view().insert(
                key_bytes(old(self).next_id()),
                actionner_bytes(data@),
            )) || (r matches Err(e) && e is Database && final(self).contents() == old(self).contents() && (final(self).store_view() == old(self).store_view() || final(self).store_view() == old(self).store_view().insert(
                key_bytes(old(self).next_id()),
                actionner_bytes(data@),
            )))),
            !handler_accepts(data.protocol, probe) ==> r == Err::<u32, ActionnerError>(
                ActionnerError::Handler(handler_failure(data.protocol, probe)),
            ) && final(self).contents() == old(self).contents() && final(self).store_view() == old(self).store_view(),
    {
        let id = self.next_id_to_assign;
        self.next_id_to_assign = self.next_id_to_assign + 1;
        let ghost dv = data@;
        let key = encode_key(id);
        let value = encode_actionner(&data);
        proof {
            lemma_key_round_trip(id);
            lemma_actionner_round_trip(dv);
        }
        let ActionnerData { protocol, remote, name } = data;
        let handler = match Handler::new(protocol, remote, probe) {
            Ok(h) => h,
            Err(e) => {
                return Err(ActionnerError::Handler(e));
            },
        };
        match db_insert(&mut self.actionner_data, &key, &value) {
            Err(e) => {
                // the failed write may or may not have left the record
                // in the store; nothing becomes live, the id is
                // consumed either way
                proof {
                    assert forall|id2: u32| #[trigger]
                        self.descs@.contains_key(id2) implies db_view(
                        self.actionner_data,
                    ).dom().contains(key_bytes(id2)) && parse_actionner(
                        db_view(self.actionner_data)[key_bytes(id2)],
                    ) == Some(self.descs@[id2]) by {
                        lemma_key_round_trip(id2);
                    }
                }
                Err(ActionnerError::Database(e))
            },
            Ok(()) => {
                self.descs = Ghost(self.descs@.insert(id, dv));
                self.actionners.push((id, Actionner { handler, name }));
                proof {
                    assert forall|id2: u32| #[trigger]
                        self.descs@.contains_key(id2) implies db_view(
                        self.actionner_data,
                    ).dom().contains(key_bytes(id2)) && parse_actionner(
                        db_view(self.actionner_data)[key_bytes(id2)],
                    ) == Some(self.descs@[id2]) by {
                        lemma_key_round_trip(id2);
                    }
                    assert forall|i: int| 0 <= i < self.actionners@.len() implies live_matches(
                        self.descs@,
                        #[trigger] self.actionners@[i].0,
                        self.actionners@[i].1,
                    ) by {
                        if i < self.actionners@.len() - 1 {
                            assert(live_matches(
                                old(self).descs@,
                                self.actionners@[i].0,
                                self.actionners@[i].1,
                            ));
                        }
                    }
                    assert forall|id2: u32| #[trigger]
                        self.descs@.contains_key(id2) implies lives_id(
                        self.actionners@,
                        id2,
                    ) by {
                        if id2 == id {
                            assert(self.actionners@[self.actionners@.len() - 1].0 == id);
                        } else {
                            assert(lives_id(old(self).actionners@, id2));
                            let i = choose|i: int|
                                0 <= i < old(self).actionners@.len()
                                    && #[trigger] old(self).actionners@[i].0 == id2;
                            assert(self.actionners@[i].0 == id2);
                        }
                    }
                }
                Ok(id)
            },
        }
    }

    /// The ids of every live actionner; consumed by the device
    /// registry's startup reconciliation.
    pub fn get_known(&self) -> (r: Vec<u32>)
        requires
            self.wf(),
        ensures
            forall|i: int| 0 <= i < r@.len() ==> self.contents().contains_key(#[trigger] r@[i]),
            forall|id: u32| #[trigger] self.contents().contains_key(id) ==> r@.contains(id),
            forall|i: int, j: int| 0 <= i < j < r@.len() ==> r@[i] != r@[j],
    {
        let mut out: Vec<u32> = Vec::new();
        let mut i: usize = 0;
        while i < self.actionners.len()
            invariant
                self.wf(),
                0 <= i <= self.actionners@.len(),
                out@.len() == i,
                forall|j: int| 0 <= j < i ==> #[trigger] out@[j] == self.actionners@[j].0,
            decreases self.actionners@.len() - i,
        {
            let entry = &self.actionners[i];
            out.push(entry.0);
            i = i + 1;
        }
        proof {
            assert forall|id: u32| #[trigger] self.contents().contains_key(id) implies
            out@.contains(id) by {
                let i = choose|i: int|
                    0 <= i < self.actionners@.len() && #[trigger] self.actionners@[i].0 == id;
                assert(out@[i] == id);
            }
        }
        out
    }

    /// Lists every live actionner with its display fields.
    pub fn get_list(&self) -> (r: Vec<ActionnerEntry>)
        requires
            self.wf(),
        ensures
            forall|i: int|
                0 <= i < r@.len() ==> self.contents().contains_key(#[trigger] r@[i].id)
                    && r@[i].name@ == self.contents()[r@[i].id].name && r@[i].protocol@
                    == protocol_name(self.contents()[r@[i].id].protocol),
            forall|id: u32|
                #[trigger] self.contents().contains_key(id) ==> exists|i: int|
                    0 <= i < r@.len() && #[trigger] r@[i].id == id,
            forall|i: int, j: int| 0 <= i < j < r@.len() ==> r@[i].id != r@[j].id,
    {
        let mut out: Vec<ActionnerEntry> = Vec::new();
        let mut i: usize = 0;
        while i < self.actionners.len()
            invariant
                self.wf(),
                0 <= i <= self.actionners@.len(),
                out@.len() == i,
                forall|j: int|
                    0 <= j < i ==> #[trigger] out@[j].id == self.actionners@[j].0
                        && self.contents().contains_key(out@[j].id) && out@[j].name@
                        == self.contents()[out@[j].id].name && out@[j].protocol@ == protocol_name(
                        self.contents()[out@[j].id].protocol,
                    ),
            decreases self.actionners@.len() - i,
        {
            let entry = &self.actionners[i];
            let name = entry.1.name.clone();
            let protocol = entry.1.handler.protocol().name();
            out.push(ActionnerEntry { id: entry.0, name, protocol });
            i = i + 1;
        }
        proof {
            assert forall|id: u32| #[trigger] self.contents().contains_key(id) implies exists|
                i: int,
            |
                0 <= i < out@.len() && #[trigger] out@[i].id == id by {
                let i = choose|i: int|
                    0 <= i < self.actionners@.len() && #[trigger] self.actionners@[i].0 == id;
                assert(out@[i].id == id);
            }
        }
        out
    }

    /// The protocol of a live actionner, if the id is known.
    pub fn protocol(&self, id: u32) -> (r: Option<Protocol>)
        requires
            self.wf(),
        ensures
            self.contents().contains_key(id) ==> r == Some(self.contents()[id].protocol),
            !self.contents().contains_key(id) ==> r is None,
    {
        let mut i: usize = 0;
        while i < self.actionners.len()
            invariant
                self.wf(),
                0 <= i <= self.actionners@.len(),
                forall|j: int| 0 <= j < i ==> #[trigger] self.actionners@[j].0 != id,
            decreases self.actionners@.len() - i,
        {
            let entry = &self.actionners[i];
            if entry.0 == id {
                return Some(entry.1.handler.protocol());
            }
            i = i + 1;
        }
        proof {
            if self.contents().contains_key(id) {
                let j = choose|j: int|
                    0 <= j < self.actionners@.len() && #[trigger] self.actionners@[j].0 == id;
                assert(false);
            }
        }
        None
    }

    /// Forwards a command to the live handler of the device's owning
    /// actionner: nothing to do when that actionner has vanished (a
    /// legitimate race, not an error), otherwise the frame to write.
    pub fn act(&self, command: &[u8], object: &Object) -> (r: Result<
        Option<OutboundFrame>,
        HandlerError,
    >)
        requires
            self.wf(),
        ensures
            !self.contents().contains_key(object.actionner_id) ==> r == Ok::<
                Option<OutboundFrame>,
                HandlerError,
            >(None),
            self.contents().contains_key(object.actionner_id) ==> (match act_verdict(
                self.contents()[object.actionner_id],
                object@,
                command@,
            ) {
                Ok(f) => r matches Ok(fo) && (fo matches Some(fr) && fr@ == f),
                Err(e) => r == Err::<Option<OutboundFrame>, HandlerError>(e),
            }),
    {
        let aid = object.actionner_id;
        let mut i: usize = 0;
        while i < self.actionners.len()
            invariant
                self.wf(),
                0 <= i <= self.actionners@.len(),
                aid == object.actionner_id,
                forall|j: int| 0 <= j < i ==> #[trigger] self.actionners@[j].0 != aid,
            decreases self.actionners@.len() - i,
        {
            let entry = &self.actionners[i];
            if entry.0 == aid {
                let verdict = entry.1.handler.command(command, object);
                proof {
                    assert(live_matches(self.descs@, self.actionners@[i as int].0, self.actionners@[i as int].1));
                }
                return match verdict {
                    Ok(f) => Ok(Some(f)),
                    Err(e) => Err(e),
                };
            }
            i = i + 1;
        }
        proof {
            if self.contents().contains_key(aid) {
                let j = choose|j: int|
                    0 <= j < self.actionners@.len() && #[trigger] self.actionners@[j].0 == aid;
                assert(false);
            }
        }
        Ok(None)
    }
}

/// An actionner store that has been scanned but whose descriptors still
/// await their liveness probes: the caller probes each pending remote
/// and hands the outcomes to [`PendingActionners::resolve`].
pub struct PendingActionners {
    db: sled::Db,
    pending: Vec<(u32, ActionnerData)>,
    next_id_to_assign: u32,
    descs: Ghost<Map<u32, ActionnerView>>,
}

impl PendingActionners {
    /// The stored descriptors, by actionner id.
    pub closed spec fn contents(&self) -> Map<u32, ActionnerView> {
        self.descs@
    }

    /// The stored descriptors in scan order, as the probe loop sees
    /// them.
    pub closed spec fn pending_view(&self) -> Seq<(u32, ActionnerData)> {
        self.pending@
    }

    /// The stored descriptors, each with its id, in scan order: one
    /// probe outcome is owed per entry.
    pub fn pending(&self) -> (r: &Vec<(u32, ActionnerData)>)
        ensures
            r@ == self.pending_view(),
    {
        &self.pending
    }

    /// The id counter recovered from the scan: one past the largest
    /// stored id.
    pub closed spec fn next_id(&self) -> u32 {
        self.next_id_to_assign
    }

    /// The scan invariant: store, model and pending list agree.
    pub closed spec fn wf(&self) -> bool {
        &&& forall|k: Seq<u8>|
            #[trigger] db_view(self.db).dom().contains(k) ==> k.len() == 4
                && self.descs@.contains_key(key_id(k)) && parse_actionner(db_view(self.db)[k])
                == Some(self.descs@[key_id(k)])
        &&& forall|id: u32|
            self.descs@.contains_key(id) ==> db_view(self.db).dom().contains(
                #[trigger] key_bytes(id),
            )
        &&& forall|id: u32| #[trigger] self.descs@.contains_key(id) ==> id < self.next_id_to_assign
        &&& forall|i: int|
            0 <= i < self.pending@.len() ==> self.descs@.contains_key(#[trigger] self.pending@[i].0)
                && self.pending@[i].1@ == self.descs@[self.pending@[i].0]
        &&& forall|i: int, j: int|
            0 <= i < j < self.pending@.len() ==> self.pending@[i].0 != self.pending@[j].0
        &&& forall|id: u32| #[trigger] self.descs@.contains_key(id) ==> pending_has(self.pending@, id)
    }

    /// Scans an opened store: decodes every descriptor, recovers the id
    /// counter as one past the largest stored id, and returns the
    /// descriptors awaiting their probes.
    #[verifier::rlimit(50)]
    pub fn open_scan(db: sled::Db) -> (r: Result<PendingActionners, ActionnerError>)
        ensures
            r matches Ok(p) ==> {
                &&& p.wf()
                &&& forall|id: u32|
                    #[trigger] p.contents().contains_key(id) <==> db_view(db).dom().contains(
                        key_bytes(id),
                    )
                &&& forall|id: u32|
                    #[trigger] p.contents().contains_key(id) ==> parse_actionner(
                        db_view(db)[key_bytes(id)],
                    ) == Some(p.contents()[id])
                &&& forall|k: Seq<u8>|
                    #[trigger] db_view(db).dom().contains(k) ==> k.len() == 4 && key_id(k)
                        < p.next_id() && parse_actionner(db_view(db)[k]) is Some
                &&& p.next_id() == 0 || exists|k: Seq<u8>|
                    #[trigger] db_view(db).dom().contains(k) && k.len() == 4 && key_id(k)
                        == p.next_id() - 1
            },
            r matches Err(e) ==> (e is SerDeError ==> exists|k: Seq<u8>|
                #[trigger] db_view(db).dom().contains(k) && (k.len() != 4 || parse_actionner(
                    db_view(db)[k],
                ) is None || key_id(k) == u32::MAX)),
    {
        let entries = match db_entries(&db) {
            Ok(es) => es,
            Err(e) => {
                return Err(ActionnerError::Database(e));
            },
        };
        let ghost orig = db_view(db);
        let mut p = PendingActionners {
            db,
            pending: Vec::new(),
            next_id_to_assign: 0,
            descs: Ghost(Map::empty()),
        };
        let mut i: usize = 0;
        while i < entries.len()
            invariant
                0 <= i <= entries@.len(),
                orig == db_view(db),
                db_view(p.db) == orig,
                forall|j: int|
                    0 <= j < entries@.len() ==> orig.contains_pair(
                        #[trigger] entries@[j].0@,
                        entries@[j].1@,
                    ),
                forall|k: Seq<u8>|
                    orig.dom().contains(k) ==> exists|j: int|
                        0 <= j < entries@.len() && #[trigger] entries@[j].0@ == k,
                forall|j1: int, j2: int|
                    0 <= j1 < j2 < entries@.len() ==> entries@[j1].0@ != entries@[j2].0@,
                p.pending@.len() == i,
                forall|j: int|
                    0 <= j < i ==> #[trigger] entries@[j].0@.len() == 4 && p.pending@[j].0 == key_id(
                        entries@[j].0@,
                    ) && parse_actionner(entries@[j].1@) == Some(p.pending@[j].1@),
                forall|j: int|
                    0 <= j < i ==> p.descs@.contains_key(#[trigger] p.pending@[j].0)
                        && p.descs@[p.pending@[j].0] == p.pending@[j].1@,
                forall|j1: int, j2: int|
                    0 <= j1 < j2 < i ==> p.pending@[j1].0 != p.pending@[j2].0,
                forall|id: u32|
                    #[trigger] p.descs@.contains_key(id) ==> exists|j: int|
                        0 <= j < i && #[trigger] entries@[j].0@ == key_bytes(id),
                forall|j: int| 0 <= j < i ==> key_id(#[trigger] entries@[j].0@) < p.next_id_to_assign,
                p.next_id_to_assign == 0 || exists|j: int|
                    0 <= j < i && key_id(#[trigger] entries@[j].0@) == p.next_id_to_assign - 1,
            decreases entries@.len() - i,
        {
            let ghost i0 = i as int;
            let id = match decode_key(&entries[i].0) {
                Some(id) => id,
                None => {
                    proof {
                        assert(orig.contains_pair(entries@[i0].0@, entries@[i0].1@));
                        assert(db_view(db).dom().contains(entries@[i0].0@)
                            && entries@[i0].0@.len() != 4);
                    }
                    return Err(ActionnerError::SerDeError(CorruptRecord {}));
                },
            };
            proof {
                lemma_key_canonical(entries@[i0].0@);
            }
            let data = match decode_actionner(&entries[i].1) {
                Some(d) => d,
                None => {
                    proof {
                        assert(orig.contains_pair(entries@[i0].0@, entries@[i0].1@));
                        assert(db_view(db).dom().contains(entries@[i0].0@) && parse_actionner(
                            db_view(db)[entries@[i0].0@],
                        ) is None);
                    }
                    return Err(ActionnerError::SerDeError(CorruptRecord {}));
                },
            };
            if id == u32::MAX {
                // the id space is exhausted; treat the record as
                // incompatible rather than wrap the counter
                proof {
                    assert(orig.contains_pair(entries@[i0].0@, entries@[i0].1@));
                    assert(db_view(db).dom().contains(entries@[i0].0@) && key_id(entries@[i0].0@)
                        == u32::MAX);
                }
                return Err(ActionnerError::SerDeError(CorruptRecord {}));
            }
            if id >= p.next_id_to_assign {
                p.next_id_to_assign = id + 1;
            }
            proof {
                if p.descs@.contains_key(id) {
                    let j = choose|j: int|
                        0 <= j < i0 && #[trigger] entries@[j].0@ == key_bytes(id);
                    assert(entries@[j].0@ == entries@[i0].0@);
                    assert(false);
                }
                p.descs@ = p.descs@.insert(id, data@);
            }
            p.pending.push((id, data));
            i = i + 1;
        }
        proof {
            assert forall|k: Seq<u8>| #[trigger]
                db_view(p.db).dom().contains(k) implies k.len() == 4 && p.descs@.contains_key(
                key_id(k),
            ) && parse_actionner(db_view(p.db)[k]) == Some(p.descs@[key_id(k)]) && key_id(k)
                < p.next_id_to_assign by {
                let j = choose|j: int|
                    0 <= j < entries@.len() && #[trigger] entries@[j].0@ == k;
                assert(orig[k] == entries@[j].1@);
                assert(p.descs@.contains_key(p.pending@[j].0));
            }
            assert forall|id: u32| #[trigger]
                p.descs@.contains_key(id) implies db_view(p.db).dom().contains(key_bytes(id)) && id
                < p.next_id_to_assign && pending_has(p.pending@, id) && parse_actionner(
                orig[key_bytes(id)],
            ) == Some(p.descs@[id]) by {
                let j = choose|j: int|
                    0 <= j < entries@.len() && #[trigger] entries@[j].0@ == key_bytes(id);
                lemma_key_round_trip(id);
                assert(p.pending@[j].0 == id);
                assert(orig[key_bytes(id)] == entries@[j].1@);
            }
            assert forall|id: u32| db_view(db).dom().contains(key_bytes(id)) implies #[trigger]
            p.contents().contains_key(id) by {
                let j = choose|j: int|
                    0 <= j < entries@.len() && #[trigger] entries@[j].0@ == key_bytes(id);
                lemma_key_round_trip(id);
                assert(p.pending@[j].0 == id);
            }
            if p.next_id_to_assign != 0 {
                let j = choose|j: int|
                    0 <= j < entries@.len() as int && key_id(#[trigger] entries@[j].0@)
                        == p.next_id_to_assign - 1;
                assert(orig.dom().contains(entries@[j].0@));
            }
        }
        Ok(p)
    }

    /// Resolves the scan against the caller's probe outcomes, one per
    /// pending descriptor in order: an accepted probe yields a live
    /// handler, a refused one deletes the descriptor from the store —
    /// an actionner that cannot be revived at boot is forgotten, not
    /// retried.  The id counter stays what the scan recovered.
    pub fn resolve(self, outcomes: Vec<ProbeOutcome>) -> (r: Result<Actionners, ActionnerError>)
        requires
            self.wf(),
            outcomes@.len() == self.pending_view().len(),
        ensures
            r matches Ok(a) ==> {
                &&& a.wf()
                &&& a.next_id() == self.next_id()
                &&& forall|j: int|
                    0 <= j < self.pending_view().len() ==> (if handler_accepts(
                        self.pending_view()[j].1.protocol,
                        outcomes@[j],
                    ) {
                        a.contents().contains_key(#[trigger] self.pending_view()[j].0)
                            && a.contents()[self.pending_view()[j].0] == self.pending_view()[j].1@
                    } else {
                        !a.contents().contains_key(self.pending_view()[j].0)
                    })
                &&& forall|id: u32|
                    #[trigger] a.contents().contains_key(id) ==> self.contents().contains_key(id)
                        && a.contents()[id] == self.contents()[id]
                &&& forall|k: Seq<u8>|
                    #[trigger] a.store_view().dom().contains(k) ==> a.contents().contains_key(
                        key_id(k),
                    )
                &&& forall|id: u32|
                    #[trigger] a.contents().contains_key(id) ==> a.store_view().dom().contains(
                        key_bytes(id),
                    )
            },
            r matches Err(e) ==> e is Database,
    {
        let ghost orig_pending = self.pending@;
        let ghost orig_outcomes = outcomes@;
        let ghost orig_descs = self.descs@;
        let PendingActionners { db, pending, next_id_to_assign, descs } = self;
        let mut db = db;
        let mut pending = pending;
        let mut outcomes = outcomes;
        let ghost mut cur = descs@;
        let mut live: Vec<(u32, Actionner)> = Vec::new();
        let total = pending.len();
        let mut i: usize = 0;
        while pending.len() > 0
            invariant
                0 <= i,
                orig_pending.len() == total,
                orig_outcomes.len() == orig_pending.len(),
                i + pending@.len() == orig_pending.len(),
                i + outcomes@.len() == orig_pending.len(),
                pending@ == orig_pending.skip(i as int),
                outcomes@ == orig_outcomes.skip(i as int),
                forall|j1: int, j2: int|
                    0 <= j1 < j2 < orig_pending.len() ==> orig_pending[j1].0 != orig_pending[j2].0,
                // store mirror over the current model
                forall|k: Seq<u8>|
                    #[trigger] db_view(db).dom().contains(k) ==> k.len() == 4 && cur.contains_key(
                        key_id(k),
                    ) && parse_actionner(db_view(db)[k]) == Some(cur[key_id(k)]),
                forall|id: u32|
                    cur.contains_key(id) ==> db_view(db).dom().contains(#[trigger] key_bytes(id)),
                forall|id: u32| #[trigger] cur.contains_key(id) ==> id < next_id_to_assign,
                // the model only ever shrinks from the scan's model
                forall|id: u32|
                    #[trigger] cur.contains_key(id) ==> orig_descs.contains_key(id) && cur[id]
                        == orig_descs[id],
                // unprocessed descriptors are untouched
                forall|j: int|
                    i <= j < orig_pending.len() ==> cur.contains_key(#[trigger] orig_pending[j].0)
                        && cur[orig_pending[j].0] == orig_pending[j].1@,
                // processed descriptors were kept live or evicted
                forall|j: int|
                    0 <= j < i ==> (if handler_accepts(
                        #[trigger] orig_pending[j].1.protocol,
                        orig_outcomes[j],
                    ) {
                        cur.contains_key(orig_pending[j].0) && cur[orig_pending[j].0]
                            == orig_pending[j].1@ && lives_id(live@, orig_pending[j].0)
                    } else {
                        !cur.contains_key(orig_pending[j].0)
                    }),
                // live entries agree with the model and come from the scan
                forall|l: int|
                    0 <= l < live@.len() ==> live_matches(cur, #[trigger] live@[l].0, live@[l].1),
                forall|l: int|
                    0 <= l < live@.len() ==> pending_prefix_has(
                        orig_pending,
                        i as int,
                        #[trigger] live@[l].0,
                    ),
                forall|l1: int, l2: int| 0 <= l1 < l2 < live@.len() ==> live@[l1].0 != live@[l2].0,
            decreases pending@.len(),
        {
            let ghost i0 = i as int;
            let ghost pre_cur = cur;
            let ghost pre_live = live@;
            let entry = pending.remove(0);
            let outcome = outcomes.remove(0);
            let (id, data) = entry;
            let ghost dv = data@;
            let ActionnerData { protocol, remote, name } = data;
            proof {
                assert(orig_pending[i0].0 == id && orig_pending[i0].1@ == dv);
                assert(orig_outcomes[i0] == outcome);
                assert(pending@ =~= orig_pending.skip(i0 + 1));
                assert(outcomes@ =~= orig_outcomes.skip(i0 + 1));
            }
            match Handler::new(protocol, remote, outcome) {
                Ok(h) => {
                    proof {
                        assert forall|l: int| 0 <= l < live@.len() implies #[trigger] live@[l].0
                            != id by {
                            assert(pending_prefix_has(orig_pending, i0, live@[l].0));
                            let j = choose|j: int|
                                0 <= j < i0 && #[trigger] orig_pending[j].0 == live@[l].0;
                        }
                    }
                    live.push((id, Actionner { handler: h, name }));
                },
                Err(_evicted) => {
                    // the descriptor cannot be revived; forget it for
                    // good rather than retry later
                    let key = encode_key(id);
                    proof {
                        lemma_key_round_trip(id);
                    }
                    match db_remove(&mut db, &key) {
                        Ok(()) => (),
                        Err(e) => {
                            return Err(ActionnerError::Database(e));
                        },
                    }
                    proof {
                        cur = cur.remove(id);
                        assert forall|k: Seq<u8>| #[trigger]
                            db_view(db).dom().contains(k) implies k.len() == 4 && cur.contains_key(
                            key_id(k),
                        ) && parse_actionner(db_view(db)[k]) == Some(cur[key_id(k)]) by {
                            lemma_key_canonical(k);
                        }
                        assert forall|id2: u32| cur.contains_key(id2) implies db_view(
                            db,
                        ).dom().contains(#[trigger] key_bytes(id2)) by {
                            lemma_key_round_trip(id2);
                            lemma_key_round_trip(id);
                        }
                        assert forall|l: int| 0 <= l < live@.len() implies live_matches(
                            cur,
                            #[trigger] live@[l].0,
                            live@[l].1,
                        ) by {
                            assert(pending_prefix_has(orig_pending, i0, live@[l].0));
                            let j = choose|j: int|
                                0 <= j < i0 && #[trigger] orig_pending[j].0 == live@[l].0;
                            assert(live_matches(pre_cur, live@[l].0, live@[l].1));
                        }
                    }
                },
            }
            proof {
                assert forall|j: int|
                    0 <= j < i0 + 1 implies (if handler_accepts(
                        #[trigger] orig_pending[j].1.protocol,
                        orig_outcomes[j],
                    ) {
                        cur.contains_key(orig_pending[j].0) && cur[orig_pending[j].0]
                            == orig_pending[j].1@ && lives_id(live@, orig_pending[j].0)
                    } else {
                        !cur.contains_key(orig_pending[j].0)
                    }) by {
                    if j < i0 {
                        if handler_accepts(orig_pending[j].1.protocol, orig_outcomes[j]) {
                            assert(lives_id(pre_live, orig_pending[j].0));
                            let l = choose|l: int|
                                0 <= l < pre_live.len() && #[trigger] pre_live[l].0
                                    == orig_pending[j].0;
                            assert(live@[l].0 == orig_pending[j].0);
                            assert(lives_id(live@, orig_pending[j].0));
                        }
                    } else {
                        if handler_accepts(orig_pending[j].1.protocol, orig_outcomes[j]) {
                            assert(live@[live@.len() - 1].0 == id);
                            assert(lives_id(live@, id));
                        }
                    }
                }
            }
            i = i + 1;
        }
        let a = Actionners {
            actionner_data: db,
            actionners: live,
            next_id_to_assign,
            descs: Ghost(cur),
        };
        proof {
            assert forall|id: u32| #[trigger] a.contents().contains_key(id) implies lives_id(
                a.actionners@,
                id,
            ) by {
                assert(orig_descs.contains_key(id));
                assert(pending_has(orig_pending, id));
                let j = choose|j: int|
                    0 <= j < orig_pending.len() && #[trigger] orig_pending[j].0 == id;
            }
            assert forall|id: u32| #[trigger] a.contents().contains_key(id) implies db_view(
                a.actionner_data,
            ).dom().contains(key_bytes(id)) && parse_actionner(
                db_view(a.actionner_data)[key_bytes(id)],
            ) == Some(a.contents()[id]) by {
                lemma_key_round_trip(id);
            }
        }
        Ok(a)
    }
}

} // verus!
