//! The persistent device registry: id allocation, lookup, listing, and
//! the orphan reconciliation performed when the registry is opened.
//!
//! The registry is modeled by a map from device id to descriptor value;
//! the invariant ties that model to the bytes of the persistent store.

use vstd::prelude::*;
use crate::codec::{
    decode_key, decode_object, encode_key, encode_object, key_bytes, key_id, lemma_key_canonical,
    lemma_key_round_trip, lemma_object_round_trip, parse_object, CorruptRecord,
};
use crate::objects::{ActionnerId, Object, ObjectKind, ObjectView};
use crate::store::{db_entries, db_get, db_insert, db_open, db_remove, db_view};

verus! {

/// A failure of the device registry: the store failed, or a stored
/// record is corrupt.
#[derive(Debug)]
pub enum DeviceError {
    Sled(sled::Error),
    Serde(CorruptRecord),
}

/// Whether a sequence of ids mentions `x`; linear search.
fn contains_u32(v: &Vec<u32>, x: u32) -> (r: bool)
    ensures
        r == v@.contains(x),
{
    let mut i: usize = 0;
    while i < v.len()
        invariant
            0 <= i <= v@.len(),
            forall|j: int| 0 <= j < i ==> v@[j] != x,
        decreases v@.len() - i,
    {
        if v[i] == x {
            return true;
        }
        i = i + 1;
    }
    proof {
        assert(!v@.contains(x));
    }
    false
}

/// Whether the record stored under `id` in a store with contents `m`
/// survives reconciliation against the known-actionner ids `known`: it
/// exists, parses, and references a known actionner.
pub open spec fn kept_at_open(m: Map<Seq<u8>, Seq<u8>>, known: Seq<u32>, id: u32) -> bool {
    m.dom().contains(key_bytes(id)) && (parse_object(m[key_bytes(id)]) matches Some(v)
        && known.contains(v.actionner_id))
}

/// Whether a stored value parses to a descriptor whose owning actionner
/// is known.
pub open spec fn value_kept(v: Seq<u8>, known: Seq<u32>) -> bool {
    parse_object(v) matches Some(o) && known.contains(o.actionner_id)
}

/// The state of one scanned entry after the reconciliation pass has
/// handled it: it parsed, and it was either kept in store and model or
/// evicted from both.
pub open spec fn entry_settled(
    now: Map<Seq<u8>, Seq<u8>>,
    contents: Map<u32, ObjectView>,
    known: Seq<u32>,
    k: Seq<u8>,
    v: Seq<u8>,
) -> bool {
    &&& k.len() == 4
    &&& parse_object(v) is Some
    &&& value_kept(v, known) ==> now.dom().contains(k) && contents.contains_key(key_id(k))
        && parse_object(v) == Some(contents[key_id(k)])
    &&& !value_kept(v, known) ==> !now.dom().contains(k) && !contents.contains_key(key_id(k))
}

/// Whether a registry model holds exactly the ids below `n`, as it
/// does after any run of successful `add`s on a fresh store.
pub open spec fn dense(m: Map<u32, ObjectView>, n: u32) -> bool {
    forall|id: u32| #[trigger] m.contains_key(id) <==> id < n
}

/// Id monotonicity, counting half: in a registry whose ids are dense
/// below its counter, the counter — the id the next successful `add`
/// returns — equals the number of records held.  Together with `add`'s
/// contract, successful adds return 0, 1, 2, ... in order.
pub proof fn lemma_dense_id_is_count(m: Map<u32, ObjectView>, n: u32)
    requires
        dense(m, n),
        m.dom().finite(),
    ensures
        m.dom().len() == n,
    decreases n,
{
    if n == 0 {
        assert(m.dom() =~= Set::empty());
    } else {
        let prev = (n - 1) as u32;
        let m2 = m.remove(prev);
        assert(dense(m2, prev));
        lemma_dense_id_is_count(m2, prev);
        assert(m.dom().contains(prev));
        assert(m2.dom() =~= m.dom().remove(prev));
    }
}

/// Id monotonicity, density half: a successful `add` extends a dense
/// registry by exactly the next id, keeping it dense.
pub proof fn lemma_dense_after_add(m: Map<u32, ObjectView>, n: u32, v: ObjectView)
    requires
        dense(m, n),
        n < u32::MAX,
    ensures
        dense(m.insert(n, v), (n + 1) as u32),
{
}

/// Whether a listing mentions the device id `id`.
pub open spec fn lists_id(l: Seq<(u32, Object)>, id: u32) -> bool {
    exists|i: int| 0 <= i < l.len() && #[trigger] l[i].0 == id
}

/// The persistent device registry.
pub struct Devices {
    db: sled::Db,
    next_id_to_assign: u32,
    contents: Ghost<Map<u32, ObjectView>>,
}

impl Devices {
    /// The descriptors the registry holds, by device id.
    pub closed spec fn contents(&self) -> Map<u32, ObjectView> {
        self.contents@
    }

    /// The next id the registry will assign.
    pub closed spec fn next_id(&self) -> u32 {
        self.next_id_to_assign
    }

    /// The registry invariant: the persistent store and the model agree
    /// exactly, and every held id is below the allocation counter.
    pub closed spec fn wf(&self) -> bool {
        &&& forall|id: u32|
            self.contents@.dom().contains(id) ==> db_view(self.db).dom().contains(
                #[trigger] key_bytes(id),
            )
        &&& forall|k: Seq<u8>|
            #[trigger] db_view(self.db).dom().contains(k) ==> k.len() == 4
                && self.contents@.dom().contains(key_id(k)) && parse_object(
                db_view(self.db)[k],
            ) == Some(self.contents@[key_id(k)])
        &&& forall|id: u32| #[trigger] self.contents@.dom().contains(id) ==> id < self.next_id_to_assign
    }

    /// Whether the id space is used up: the next `add` would have no
    /// id left to assign.
    pub fn ids_exhausted(&self) -> (r: bool)
        ensures
            r == (self.next_id() == u32::MAX),
    {
        self.next_id_to_assign == u32::MAX
    }

    /// Looks a device up by id.
    pub fn get(&self, id: u32) -> (r: Result<Option<Object>, DeviceError>)
        requires
            self.wf(),
        ensures
            r matches Ok(Some(o)) ==> self.contents().contains_key(id) && o@
                == self.contents()[id],
            r matches Ok(None) ==> !self.contents().contains_key(id),
            r matches Err(e) ==> e is Sled,
    {
        let key = encode_key(id);
        proof {
            lemma_key_round_trip(id);
        }
        match db_get(&self.db, &key) {
            Err(e) => Err(DeviceError::Sled(e)),
            Ok(None) => Ok(None),
            Ok(Some(v)) => {
                proof {
                    assert(db_view(self.db).dom().contains(key@));
                }
                match decode_object(&v) {
                    Some(o) => Ok(Some(o)),
                    None => {
                        // unreachable: the invariant says every stored
                        // value parses
                        proof {
                            assert(false);
                        }
                        Err(DeviceError::Serde(CorruptRecord {}))
                    },
                }
            },
        }
    }

    /// Registers a device: allocates the next id, persists the
    /// descriptor under it, and returns it.  The id counter advances
    /// even when persisting fails, so ids are never reused.
    pub fn add(
        &mut self,
        kind: ObjectKind,
        actionner_id: u32,
        name: String,
        id_in_actionner: ActionnerId,
    ) -> (r: Result<u32, DeviceError>)
        requires
            old(self).wf(),
            old(self).next_id() < u32::MAX,
        ensures
            final(self).wf(),
            final(self).next_id() == old(self).next_id() + 1,
            r matches Ok(id) ==> id == old(self).next_id() && final(self).contents() == old(
                self,
            ).contents().insert(
                id,
                ObjectView { actionner_id, id_in_actionner: id_in_actionner@, kind, name: name@ },
            ),
            r matches Err(e) ==> e is Sled && (final(self).contents() == old(self).contents()
                || final(self).contents() == old(self).contents().insert(
                old(self).next_id(),
                ObjectView { actionner_id, id_in_actionner: id_in_actionner@, kind, name: name@ },
            )),
    {
        let id = self.next_id_to_assign;
        self.next_id_to_assign = self.next_id_to_assign + 1;
        let new_obj = Object { kind, actionner_id, id_in_actionner, name };
        let key = encode_key(id);
        let value = encode_object(&new_obj);
        proof {
            lemma_key_round_trip(id);
            lemma_object_round_trip(new_obj@);
        }
        match db_insert(&mut self.db, &key, &value) {
            Ok(()) => {
                self.contents = Ghost(self.contents@.insert(id, new_obj@));
                proof {
                    assert forall|k: Seq<u8>| #[trigger]
                        db_view(self.db).dom().contains(k) implies k.len() == 4
                        && self.contents@.dom().contains(key_id(k)) && parse_object(
                        db_view(self.db)[k],
                    ) == Some(self.contents@[key_id(k)]) by {
                        if k != key@ {
                            lemma_key_canonical(k);
                        }
                    }
                }
                Ok(id)
            },
            Err(e) => {
                // the failed write may or may not have reached the
                // store; the model follows whichever happened, and the
                // id is consumed either way
                proof {
                    if db_view(self.db) != db_view(old(self).db) {
                        self.contents@ = self.contents@.insert(id, new_obj@);
                    }
                    assert forall|k: Seq<u8>| #[trigger]
                        db_view(self.db).dom().contains(k) implies k.len() == 4
                        && self.contents@.dom().contains(key_id(k)) && parse_object(
                        db_view(self.db)[k],
                    ) == Some(self.contents@[key_id(k)]) by {
                        if k != key@ {
                            lemma_key_canonical(k);
                        }
                    }
                }
                Err(DeviceError::Sled(e))
            },
        }
    }

    /// Lists every device with its id; each held id appears exactly
    /// once, in store order.
    pub fn list(&self) -> (r: Result<Vec<(u32, Object)>, DeviceError>)
        requires
            self.wf(),
        ensures
            r matches Ok(l) ==> forall|i: int|
                0 <= i < l@.len() ==> self.contents().contains_key(#[trigger] l@[i].0)
                    && l@[i].1@ == self.contents()[l@[i].0],
            r matches Ok(l) ==> forall|id: u32|
                #[trigger] self.contents().contains_key(id) ==> lists_id(l@, id),
            r matches Ok(l) ==> forall|i: int, j: int| 0 <= i < j < l@.len() ==> l@[i].0 != l@[j].0,
            r matches Err(e) ==> e is Sled,
    {
        let entries = match db_entries(&self.db) {
            Ok(es) => es,
            Err(e) => {
                return Err(DeviceError::Sled(e));
            },
        };
        let mut out: Vec<(u32, Object)> = Vec::new();
        let mut i: usize = 0;
        while i < entries.len()
            invariant
                self.wf(),
                0 <= i <= entries@.len(),
                out@.len() == i,
                forall|j: int|
                    0 <= j < entries@.len() ==> db_view(self.db).contains_pair(
                        #[trigger] entries@[j].0@,
                        entries@[j].1@,
                    ),
                forall|j1: int, j2: int|
                    0 <= j1 < j2 < entries@.len() ==> entries@[j1].0@ != entries@[j2].0@,
                forall|j: int|
                    0 <= j < i ==> #[trigger] out@[j].0 == key_id(entries@[j].0@)
                        && self.contents().contains_key(out@[j].0) && out@[j].1@
                        == self.contents()[out@[j].0],
            decreases entries@.len() - i,
        {
            let id = match decode_key(&entries[i].0) {
                Some(id) => id,
                None => {
                    // unreachable: the invariant says every stored key
                    // is four bytes
                    proof {
                        assert(db_view(self.db).dom().contains(entries@[i as int].0@));
                        assert(false);
                    }
                    return Err(DeviceError::Serde(CorruptRecord {}));
                },
            };
            let obj = match decode_object(&entries[i].1) {
                Some(o) => o,
                None => {
                    // unreachable: the invariant says every stored
                    // value parses
                    proof {
                        assert(db_view(self.db).dom().contains(entries@[i as int].0@));
                        assert(db_view(self.db)[entries@[i as int].0@] == entries@[i as int].1@);
                        assert(false);
                    }
                    return Err(DeviceError::Serde(CorruptRecord {}));
                },
            };
            proof {
                assert(db_view(self.db)[entries@[i as int].0@] == entries@[i as int].1@);
            }
            out.push((id, obj));
            i = i + 1;
        }
        proof {
            assert forall|id: u32| #[trigger] self.contents().contains_key(id) implies lists_id(
                out@,
                id,
            ) by {
                lemma_key_round_trip(id);
                assert(db_view(self.db).dom().contains(key_bytes(id)));
                let j = choose|j: int|
                    0 <= j < entries@.len() && #[trigger] entries@[j].0@ == key_bytes(id);
                assert(out@[j].0 == id);
            }
            assert forall|j1: int, j2: int| 0 <= j1 < j2 < out@.len() implies out@[j1].0
                != out@[j2].0 by {
                assert(entries@[j1].0@.len() == 4 && entries@[j2].0@.len() == 4);
                lemma_key_canonical(entries@[j1].0@);
                lemma_key_canonical(entries@[j2].0@);
            }
        }
        Ok(out)
    }

    /// Opens or creates the device store under `root` and reconciles it
    /// against the set of known-live actionners: every held descriptor
    /// afterwards references a known actionner.
    pub fn open(root: &str, known_actionners: &Vec<u32>) -> (r: Result<Devices, DeviceError>)
        ensures
            r matches Ok(d) ==> d.wf() && forall|id: u32|
                #[trigger] d.contents().contains_key(id) ==> known_actionners@.contains(
                    d.contents()[id].actionner_id,
                ),
    {
        let mut path = String::from_str(root);
        path.append("/devices");
        let db = match db_open(path.as_str()) {
            Ok(db) => db,
            Err(e) => {
                return Err(DeviceError::Sled(e));
            },
        };
        Devices::from_db(db, known_actionners)
    }

    /// Builds the registry from an opened store: recovers the id counter
    /// as one past the largest stored id, and deletes every record whose
    /// owning actionner is not in `known_actionners` (a device cannot
    /// outlive its actionner across a restart).
    pub fn from_db(db: sled::Db, known_actionners: &Vec<u32>) -> (r: Result<Devices, DeviceError>)
        ensures
            r matches Ok(d) ==> {
                &&& d.wf()
                &&& forall|id: u32|
                    #[trigger] d.contents().contains_key(id) <==> kept_at_open(
                        db_view(db),
                        known_actionners@,
                        id,
                    )
                &&& forall|id: u32|
                    #[trigger] d.contents().contains_key(id) ==> parse_object(
                        db_view(db)[key_bytes(id)],
                    ) == Some(d.contents()[id])
                &&& forall|k: Seq<u8>|
                    #[trigger] db_view(db).dom().contains(k) ==> k.len() == 4 && key_id(k)
                        < d.next_id() && parse_object(db_view(db)[k]) is Some
                &&& d.next_id() == 0 || exists|k: Seq<u8>|
                    #[trigger] db_view(db).dom().contains(k) && k.len() == 4 && key_id(k)
                        == d.next_id() - 1
            },
            r matches Err(e) ==> (e is Serde ==> exists|k: Seq<u8>|
                #[trigger] db_view(db).dom().contains(k) && (k.len() != 4 || parse_object(
                    db_view(db)[k],
                ) is None || key_id(k) == u32::MAX)),
    {
        let entries = match db_entries(&db) {
            Ok(es) => es,
            Err(e) => {
                return Err(DeviceError::Sled(e));
            },
        };
        let ghost orig = db_view(db);
        let mut d = Devices { db, next_id_to_assign: 0, contents: Ghost(Map::empty()) };
        let mut i: usize = 0;
        while i < entries.len()
            invariant
                0 <= i <= entries@.len(),
                orig == db_view(db),
                // the snapshot reflects the original store
                forall|j: int|
                    0 <= j < entries@.len() ==> orig.contains_pair(
                        #[trigger] entries@[j].0@,
                        entries@[j].1@,
                    ),
                forall|k: Seq<u8>|
                    orig.dom().contains(k) ==> exists|j: int|
                        0 <= j < entries@.len() && #[trigger] entries@[j].0@ == k,
                forall|j1: int, j2: int|
                    0 <= j1 < j2 < entries@.len() ==> entries@[j1].0@ != entries@[j2].0@,
                // the store only ever shrinks, keeping values intact
                forall|k: Seq<u8>|
                    #[trigger] db_view(d.db).dom().contains(k) ==> orig.contains_pair(
                        k,
                        db_view(d.db)[k],
                    ),
                // unprocessed entries are still present
                forall|j: int|
                    i <= j < entries@.len() ==> db_view(d.db).dom().contains(
                        #[trigger] entries@[j].0@,
                    ),
                // processed entries parsed, and were kept or evicted
                forall|j: int|
                    0 <= j < i ==> #[trigger] entry_settled(
                        db_view(d.db),
                        d.contents@,
                        known_actionners@,
                        entries@[j].0@,
                        entries@[j].1@,
                    ),
                // the model holds processed kept entries only
                forall|id: u32|
                    #[trigger] d.contents@.contains_key(id) ==> exists|j: int|
                        0 <= j < i && #[trigger] entries@[j].0@ == key_bytes(id),
                // counter facts
                forall|j: int| 0 <= j < i ==> key_id(#[trigger] entries@[j].0@) < d.next_id_to_assign,
                d.next_id_to_assign == 0 || exists|j: int|
                    0 <= j < i && key_id(#[trigger] entries@[j].0@) == d.next_id_to_assign - 1,
            decreases entries@.len() - i,
        {
            let ghost i0 = i as int;
            let ghost ki = entries@[i0].0@;
            let ghost vi = entries@[i0].1@;
            let ghost pre_db = db_view(d.db);
            let ghost pre_contents = d.contents@;
            let id = match decode_key(&entries[i].0) {
                Some(id) => id,
                None => {
                    proof {
                        assert(orig.contains_pair(ki, vi));
                        assert(db_view(db).dom().contains(ki) && ki.len() != 4);
                    }
                    return Err(DeviceError::Serde(CorruptRecord {}));
                },
            };
            proof {
                assert(ki.len() == 4 && id == key_id(ki));
                lemma_key_canonical(ki);
            }
            let obj = match decode_object(&entries[i].1) {
                Some(o) => o,
                None => {
                    proof {
                        assert(orig.contains_pair(ki, vi));
                        assert(db_view(db).dom().contains(ki) && parse_object(
                            db_view(db)[ki],
                        ) is None);
                    }
                    return Err(DeviceError::Serde(CorruptRecord {}));
                },
            };
            if id == u32::MAX {
                // the id space is exhausted; treat the record as
                // incompatible rather than wrap the counter
                proof {
                    assert(orig.contains_pair(ki, vi));
                    assert(db_view(db).dom().contains(ki) && key_id(ki) == u32::MAX);
                }
                return Err(DeviceError::Serde(CorruptRecord {}));
            }
            if id >= d.next_id_to_assign {
                d.next_id_to_assign = id + 1;
            }
            if contains_u32(known_actionners, obj.actionner_id) {
                proof {
                    d.contents@ = d.contents@.insert(id, obj@);
                }
            } else {
                proof {
                    if d.contents@.contains_key(id) {
                        let j = choose|j: int|
                            0 <= j < i0 && #[trigger] entries@[j].0@ == key_bytes(id);
                        assert(entries@[j].0@ == ki);
                        assert(false);
                    }
                }
                match db_remove(&mut d.db, &entries[i].0) {
                    Ok(()) => (),
                    Err(e) => {
                        return Err(DeviceError::Sled(e));
                    },
                }
            }
            proof {
                assert forall|j: int| 0 <= j < i0 + 1 implies #[trigger] entry_settled(
                    db_view(d.db),
                    d.contents@,
                    known_actionners@,
                    entries@[j].0@,
                    entries@[j].1@,
                ) by {
                    if j < i0 {
                        assert(entry_settled(
                            pre_db,
                            pre_contents,
                            known_actionners@,
                            entries@[j].0@,
                            entries@[j].1@,
                        ));
                        lemma_key_canonical(entries@[j].0@);
                        assert(entries@[j].0@ != ki);
                        assert(key_id(entries@[j].0@) != id);
                    } else {
                        assert(parse_object(vi) == Some(obj@));
                    }
                }
            }
            i = i + 1;
        }
        proof {
            assert forall|k: Seq<u8>| #[trigger]
                db_view(d.db).dom().contains(k) implies k.len() == 4 && d.contents@.dom().contains(
                key_id(k),
            ) && parse_object(db_view(d.db)[k]) == Some(d.contents@[key_id(k)]) by {
                assert(orig.dom().contains(k));
                let j = choose|j: int|
                    0 <= j < entries@.len() && #[trigger] entries@[j].0@ == k;
                assert(entry_settled(
                    db_view(d.db),
                    d.contents@,
                    known_actionners@,
                    k,
                    entries@[j].1@,
                ));
                assert(orig[k] == entries@[j].1@);
                assert(db_view(d.db)[k] == orig[k]);
            }
            assert forall|id: u32| #[trigger]
                d.contents@.dom().contains(id) implies db_view(d.db).dom().contains(
                key_bytes(id),
            ) && id < d.next_id_to_assign && parse_object(orig[key_bytes(id)]) == Some(
                d.contents@[id],
            ) && kept_at_open(orig, known_actionners@, id) by {
                let j = choose|j: int|
                    0 <= j < entries@.len() && #[trigger] entries@[j].0@ == key_bytes(id);
                lemma_key_round_trip(id);
                assert(entry_settled(
                    db_view(d.db),
                    d.contents@,
                    known_actionners@,
                    key_bytes(id),
                    entries@[j].1@,
                ));
                assert(orig[key_bytes(id)] == entries@[j].1@);
            }
            assert forall|id: u32|
                kept_at_open(orig, known_actionners@, id) implies #[trigger]
            d.contents@.contains_key(id) by {
                lemma_key_round_trip(id);
                let j = choose|j: int|
                    0 <= j < entries@.len() && #[trigger] entries@[j].0@ == key_bytes(id);
                assert(orig[key_bytes(id)] == entries@[j].1@);
                assert(entry_settled(
                    db_view(d.db),
                    d.contents@,
                    known_actionners@,
                    key_bytes(id),
                    entries@[j].1@,
                ));
            }
            assert forall|k: Seq<u8>| #[trigger]
                db_view(db).dom().contains(k) implies k.len() == 4 && key_id(k)
                < d.next_id_to_assign && parse_object(db_view(db)[k]) is Some by {
                let j = choose|j: int|
                    0 <= j < entries@.len() && #[trigger] entries@[j].0@ == k;
                assert(entry_settled(
                    db_view(d.db),
                    d.contents@,
                    known_actionners@,
                    k,
                    entries@[j].1@,
                ));
                assert(orig[k] == entries@[j].1@);
            }
            if d.next_id_to_assign != 0 {
                let j = choose|j: int|
                    0 <= j < entries@.len() as int && key_id(#[trigger] entries@[j].0@)
                        == d.next_id_to_assign - 1;
                assert(orig.dom().contains(entries@[j].0@));
                assert(entry_settled(
                    db_view(d.db),
                    d.contents@,
                    known_actionners@,
                    entries@[j].0@,
                    entries@[j].1@,
                ));
            }
        }
        Ok(d)
    }
}

} // verus!
