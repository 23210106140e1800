//! The byte format of persisted records.  Keys are fixed-width
//! little-endian ids; values are flat records whose strings are UTF-8,
//! length-prefixed except for a trailing field.  Parsing is total over
//! arbitrary bytes, and encoding then parsing gives the record back.

use vstd::prelude::*;
use vstd::bytes::{
    lemma_auto_spec_u32_to_from_le_bytes, lemma_auto_spec_u64_to_from_le_bytes,
    spec_u32_from_le_bytes, spec_u32_to_le_bytes, spec_u64_from_le_bytes, spec_u64_to_le_bytes,
    u32_from_le_bytes, u32_to_le_bytes, u64_from_le_bytes, u64_to_le_bytes,
};
use vstd::utf8::{decode_utf8, encode_utf8, encode_utf8_decode_utf8, encode_utf8_valid_utf8,
    valid_utf8};
use vstd::slice::{slice_subrange, slice_to_vec};
use crate::objects::{
    ActionnerData, ActionnerId, ActionnerIdView, ActionnerView, Object, ObjectKind, ObjectView,
    Protocol,
};

verus! {

/// Marks a stored or received value that did not parse back into its
/// entity type.
#[derive(Clone, Copy, PartialEq, Eq, Structural, Debug)]
pub struct CorruptRecord {}

// ---------------------------------------------------------------- keys

/// The store key under which the record with id `id` is kept.
pub open spec fn key_bytes(id: u32) -> Seq<u8> {
    spec_u32_to_le_bytes(id)
}

/// The id a four-byte store key denotes.
pub open spec fn key_id(k: Seq<u8>) -> u32 {
    spec_u32_from_le_bytes(k)
}

/// A key round-trips through its id, and is always four bytes long.
pub proof fn lemma_key_round_trip(id: u32)
    ensures
        key_bytes(id).len() == 4,
        key_id(key_bytes(id)) == id,
{
    lemma_auto_spec_u32_to_from_le_bytes();
    assert(spec_u32_to_le_bytes(id).len() == 4);
}

/// A four-byte key is the canonical key of the id it denotes.
pub proof fn lemma_key_canonical(k: Seq<u8>)
    requires
        k.len() == 4,
    ensures
        key_bytes(key_id(k)) == k,
{
    lemma_auto_spec_u32_to_from_le_bytes();
}

/// Serializes a store key.
pub fn encode_key(id: u32) -> (r: Vec<u8>)
    ensures
        r@ == key_bytes(id),
{
    u32_to_le_bytes(id)
}

/// Deserializes a store key; anything but four bytes is malformed.
pub fn decode_key(k: &Vec<u8>) -> (r: Option<u32>)
    ensures
        k@.len() == 4 ==> r == Some(key_id(k@)),
        k@.len() != 4 ==> r is None,
{
    if k.len() == 4 {
        Some(u32_from_le_bytes(k.as_slice()))
    } else {
        None
    }
}

/// Relies on `String::from_utf8`: it succeeds exactly on valid UTF-8
/// input, and the string it returns holds the characters that input
/// encodes.
#[verifier::external_body]
fn bytes_to_string(b: Vec<u8>) -> (r: Option<String>)
    ensures
        r is Some <==> valid_utf8(b@),
        r matches Some(s) ==> s@ == decode_utf8(b@),
{
    String::from_utf8(b).ok()
}

// ------------------------------------------------- length-prefixed text

/// A length-prefixed string field: eight little-endian length bytes, then
/// the UTF-8 encoding of the characters.
pub open spec fn str_field(s: Seq<char>) -> Seq<u8> {
    spec_u64_to_le_bytes(encode_utf8(s).len() as u64) + encode_utf8(s)
}

/// Parses a length-prefixed string field at the front of `b`: the
/// characters and the number of bytes consumed.
pub open spec fn parse_str_field(b: Seq<u8>) -> Option<(Seq<char>, int)> {
    if b.len() < 8 {
        None
    } else {
        let n = spec_u64_from_le_bytes(b.subrange(0, 8)) as int;
        if n > b.len() - 8 {
            None
        } else if !valid_utf8(b.subrange(8, 8 + n)) {
            None
        } else {
            Some((decode_utf8(b.subrange(8, 8 + n)), 8 + n))
        }
    }
}

proof fn lemma_str_field_parse(s: Seq<char>, rest: Seq<u8>)
    requires
        encode_utf8(s).len() <= u64::MAX,
    ensures
        parse_str_field(str_field(s) + rest) == Some((s, str_field(s).len() as int)),
{
    lemma_auto_spec_u64_to_from_le_bytes();
    encode_utf8_valid_utf8(s);
    encode_utf8_decode_utf8(s);
    let enc = encode_utf8(s);
    let b = str_field(s) + rest;
    assert(b.subrange(0, 8) =~= spec_u64_to_le_bytes(enc.len() as u64));
    let n = spec_u64_from_le_bytes(b.subrange(0, 8)) as int;
    assert(n == enc.len());
    assert(b.subrange(8, 8 + n) =~= enc);
}

fn push_str_field(out: &mut Vec<u8>, s: &str)
    ensures
        final(out)@ == old(out)@ + str_field(s@),
        encode_utf8(s@).len() <= u64::MAX,
{
    let mut bytes = s.as_bytes_vec();
    let n = bytes.len();
    let mut len_bytes = u64_to_le_bytes(n as u64);
    out.append(&mut len_bytes);
    out.append(&mut bytes);
    proof {
        assert(final(out)@ =~= old(out)@ + str_field(s@));
    }
}

// ------------------------------------------------------ sub-identifiers

/// The encoded sub-identifier of a device: a shape tag, then either the
/// one-byte Arduino index or a length-prefixed SSH string.
pub open spec fn aid_field(a: ActionnerIdView) -> Seq<u8> {
    match a {
        ActionnerIdView::Arduino(n) => seq![0u8, n as u8],
        ActionnerIdView::SSH(s) => seq![1u8] + str_field(s),
    }
}

/// Whether a sub-identifier can be written down at all: its string form,
/// if any, must fit the length prefix.
pub open spec fn aid_view_wf(a: ActionnerIdView) -> bool {
    match a {
        ActionnerIdView::Arduino(_) => true,
        ActionnerIdView::SSH(s) => encode_utf8(s).len() <= u64::MAX,
    }
}

/// Parses a sub-identifier at the front of `b`: the value and the number
/// of bytes consumed.
pub open spec fn parse_aid_field(b: Seq<u8>) -> Option<(ActionnerIdView, int)> {
    if b.len() < 1 {
        None
    } else if b[0] == 0 {
        if b.len() < 2 {
            None
        } else {
            Some((ActionnerIdView::Arduino(b[1] as i8), 2))
        }
    } else if b[0] == 1 {
        match parse_str_field(b.skip(1)) {
            Some((s, used)) => Some((ActionnerIdView::SSH(s), 1 + used)),
            None => None,
        }
    } else {
        None
    }
}

proof fn lemma_aid_field_parse(a: ActionnerIdView, rest: Seq<u8>)
    requires
        aid_view_wf(a),
    ensures
        parse_aid_field(aid_field(a) + rest) == Some((a, aid_field(a).len() as int)),
{
    let b = aid_field(a) + rest;
    match a {
        ActionnerIdView::Arduino(n) => {
            assert(b[0] == 0 && b[1] == n as u8);
            assert((n as u8) as i8 == n) by (bit_vector);
        },
        ActionnerIdView::SSH(s) => {
            assert(b[0] == 1);
            assert(b.skip(1) =~= str_field(s) + rest);
            lemma_str_field_parse(s, rest);
        },
    }
}

// ------------------------------------------------------- device records

/// The tag byte of a device kind.
pub open spec fn kind_tag(k: ObjectKind) -> u8 {
    match k {
        ObjectKind::LED => 0,
    }
}

/// The device kind a tag byte denotes.
pub open spec fn tag_kind(t: u8) -> Option<ObjectKind> {
    if t == 0 {
        Some(ObjectKind::LED)
    } else {
        None
    }
}

/// Whether a device descriptor can be written down at all.
pub open spec fn object_view_wf(v: ObjectView) -> bool {
    aid_view_wf(v.id_in_actionner)
}

/// The persisted bytes of a device descriptor: owning actionner id, kind
/// tag, sub-identifier, then the display name as trailing UTF-8.
pub open spec fn object_bytes(v: ObjectView) -> Seq<u8> {
    spec_u32_to_le_bytes(v.actionner_id) + seq![kind_tag(v.kind)] + aid_field(v.id_in_actionner)
        + encode_utf8(v.name)
}

/// The device descriptor a persisted value denotes, `None` for anything
/// malformed.
pub open spec fn parse_object(b: Seq<u8>) -> Option<ObjectView> {
    if b.len() < 5 {
        None
    } else {
        match tag_kind(b[4]) {
            None => None,
            Some(kind) => match parse_aid_field(b.skip(5)) {
                None => None,
                Some((sub, used)) => {
                    let rest = b.skip(5 + used);
                    if valid_utf8(rest) {
                        Some(
                            ObjectView {
                                actionner_id: spec_u32_from_le_bytes(b.subrange(0, 4)),
                                id_in_actionner: sub,
                                kind,
                                name: decode_utf8(rest),
                            },
                        )
                    } else {
                        None
                    }
                },
            },
        }
    }
}

/// Encoding a device descriptor and parsing the bytes back yields the
/// descriptor: the record format is lossless.
pub proof fn lemma_object_round_trip(v: ObjectView)
    requires
        object_view_wf(v),
    ensures
        parse_object(object_bytes(v)) == Some(v),
{
    lemma_auto_spec_u32_to_from_le_bytes();
    encode_utf8_valid_utf8(v.name);
    encode_utf8_decode_utf8(v.name);
    let b = object_bytes(v);
    let head = spec_u32_to_le_bytes(v.actionner_id);
    assert(head.len() == 4);
    assert(b[4] == kind_tag(v.kind));
    assert(b.subrange(0, 4) =~= head);
    assert(b.skip(5) =~= aid_field(v.id_in_actionner) + encode_utf8(v.name));
    lemma_aid_field_parse(v.id_in_actionner, encode_utf8(v.name));
    let used = aid_field(v.id_in_actionner).len() as int;
    assert(b.skip(5 + used) =~= encode_utf8(v.name));
}

/// Serializes a device descriptor for the store.
pub fn encode_object(o: &Object) -> (r: Vec<u8>)
    ensures
        r@ == object_bytes(o@),
        object_view_wf(o@),
{
    let mut out = u32_to_le_bytes(o.actionner_id);
    let kind_byte: u8 = match o.kind {
        ObjectKind::LED => 0,
    };
    out.push(kind_byte);
    match &o.id_in_actionner {
        ActionnerId::Arduino(n) => {
            out.push(0);
            out.push(*n as u8);
        },
        ActionnerId::SSH(s) => {
            out.push(1);
            push_str_field(&mut out, s.as_str());
        },
    }
    let mut name_bytes = o.name.as_str().as_bytes_vec();
    out.append(&mut name_bytes);
    proof {
        assert(out@ =~= object_bytes(o@));
    }
    out
}

/// Deserializes a device descriptor from the store.
pub fn decode_object(b: &Vec<u8>) -> (r: Option<Object>)
    ensures
        r matches Some(o) ==> parse_object(b@) == Some(o@) && object_view_wf(o@),
        r is None ==> parse_object(b@) is None,
{
    if b.len() < 5 {
        return None;
    }
    let actionner_id = u32_from_le_bytes(slice_subrange(b.as_slice(), 0, 4));
    let kind = if b[4] == 0 {
        ObjectKind::LED
    } else {
        return None;
    };
    if b.len() < 6 {
        proof {
            assert(b@.skip(5).len() < 1);
        }
        return None;
    }
    let tag = b[5];
    proof {
        assert(b@.skip(5)[0] == b@[5]);
    }
    let (sub, name_start): (ActionnerId, usize) = if tag == 0 {
        if b.len() < 7 {
            proof {
                assert(b@.skip(5).len() < 2);
            }
            return None;
        }
        proof {
            assert(b@.skip(5)[1] == b@[6]);
        }
        (ActionnerId::Arduino(b[6] as i8), 7)
    } else if tag == 1 {
        if b.len() < 14 {
            proof {
                assert(b@.skip(5).skip(1) =~= b@.skip(6));
                assert(b@.skip(6).len() < 8);
            }
            return None;
        }
        let m64 = u64_from_le_bytes(slice_subrange(b.as_slice(), 6, 14));
        proof {
            assert(b@.skip(5).skip(1) =~= b@.skip(6));
            assert(b@.skip(6).subrange(0, 8) =~= b@.subrange(6, 14));
        }
        if m64 > (b.len() - 14) as u64 {
            return None;
        }
        let m = m64 as usize;
        let sub_bytes = slice_to_vec(slice_subrange(b.as_slice(), 14, 14 + m));
        proof {
            assert(b@.skip(6).subrange(8, 8 + m64 as int) =~= b@.subrange(14, 14 + m64 as int));
        }
        let sub_s = match bytes_to_string(sub_bytes) {
            Some(s) => s,
            None => {
                return None;
            },
        };
        proof {
            vstd::utf8::decode_utf8_encode_utf8(b@.subrange(14, 14 + m64 as int));
        }
        (ActionnerId::SSH(sub_s), 14 + m)
    } else {
        return None;
    };
    let name_bytes = slice_to_vec(slice_subrange(b.as_slice(), name_start, b.len()));
    proof {
        assert(b@.subrange(name_start as int, b@.len() as int) =~= b@.skip(name_start as int));
        let parsed = parse_aid_field(b@.skip(5));
        assert(parsed matches Some((a, used)) && 5 + used == name_start as int && a == sub@);
    }
    let name = match bytes_to_string(name_bytes) {
        Some(s) => s,
        None => {
            return None;
        },
    };
    Some(Object { actionner_id, id_in_actionner: sub, kind, name })
}

// ---------------------------------------------------- actionner records

/// The tag byte of a protocol.
pub open spec fn protocol_tag(p: Protocol) -> u8 {
    match p {
        Protocol::Arduino => 0,
        Protocol::SSH => 1,
    }
}

/// The protocol a tag byte denotes.
pub open spec fn tag_protocol(t: u8) -> Option<Protocol> {
    if t == 0 {
        Some(Protocol::Arduino)
    } else if t == 1 {
        Some(Protocol::SSH)
    } else {
        None
    }
}

/// Whether an actionner descriptor can be written down at all.
pub open spec fn actionner_view_wf(v: ActionnerView) -> bool {
    encode_utf8(v.remote).len() <= u64::MAX
}

/// The persisted bytes of an actionner descriptor: protocol tag, the
/// length-prefixed remote address, then the display name as trailing
/// UTF-8.
pub open spec fn actionner_bytes(v: ActionnerView) -> Seq<u8> {
    seq![protocol_tag(v.protocol)] + str_field(v.remote) + encode_utf8(v.name)
}

/// The actionner descriptor a persisted value denotes, `None` for
/// anything malformed.
pub open spec fn parse_actionner(b: Seq<u8>) -> Option<ActionnerView> {
    if b.len() < 1 {
        None
    } else {
        match tag_protocol(b[0]) {
            None => None,
            Some(protocol) => match parse_str_field(b.skip(1)) {
                None => None,
                Some((remote, used)) => {
                    let rest = b.skip(1 + used);
                    if valid_utf8(rest) {
                        Some(ActionnerView { protocol, remote, name: decode_utf8(rest) })
                    } else {
                        None
                    }
                },
            },
        }
    }
}

/// Encoding an actionner descriptor and parsing the bytes back yields the
/// descriptor: the record format is lossless.
pub proof fn lemma_actionner_round_trip(v: ActionnerView)
    requires
        actionner_view_wf(v),
    ensures
        parse_actionner(actionner_bytes(v)) == Some(v),
{
    encode_utf8_valid_utf8(v.name);
    encode_utf8_decode_utf8(v.name);
    let b = actionner_bytes(v);
    assert(b[0] == protocol_tag(v.protocol));
    assert(b.skip(1) =~= str_field(v.remote) + encode_utf8(v.name));
    lemma_str_field_parse(v.remote, encode_utf8(v.name));
    let used = str_field(v.remote).len() as int;
    assert(b.skip(1 + used) =~= encode_utf8(v.name));
}

/// Serializes an actionner descriptor for the store.
pub fn encode_actionner(d: &ActionnerData) -> (r: Vec<u8>)
    ensures
        r@ == actionner_bytes(d@),
        actionner_view_wf(d@),
{
    let mut out: Vec<u8> = Vec::new();
    let tag: u8 = match d.protocol {
        Protocol::Arduino => 0,
        Protocol::SSH => 1,
    };
    out.push(tag);
    push_str_field(&mut out, d.remote.as_str());
    let mut name_bytes = d.name.as_str().as_bytes_vec();
    out.append(&mut name_bytes);
    proof {
        assert(out@ =~= actionner_bytes(d@));
    }
    out
}

/// Deserializes an actionner descriptor from the store.
pub fn decode_actionner(b: &Vec<u8>) -> (r: Option<ActionnerData>)
    ensures
        r matches Some(d) ==> parse_actionner(b@) == Some(d@) && actionner_view_wf(d@),
        r is None ==> parse_actionner(b@) is None,
{
    if b.len() < 9 {
        proof {
            if b@.len() >= 1 {
                assert(b@.skip(1).len() < 8);
            }
        }
        return None;
    }
    let protocol = if b[0] == 0 {
        Protocol::Arduino
    } else if b[0] == 1 {
        Protocol::SSH
    } else {
        return None;
    };
    let m64 = u64_from_le_bytes(slice_subrange(b.as_slice(), 1, 9));
    proof {
        assert(b@.skip(1).subrange(0, 8) =~= b@.subrange(1, 9));
    }
    if m64 > (b.len() - 9) as u64 {
        return None;
    }
    let m = m64 as usize;
    let remote_bytes = slice_to_vec(slice_subrange(b.as_slice(), 9, 9 + m));
    proof {
        assert(b@.skip(1).subrange(8, 8 + m64 as int) =~= b@.subrange(9, 9 + m64 as int));
    }
    let remote = match bytes_to_string(remote_bytes) {
        Some(s) => s,
        None => {
            return None;
        },
    };
    proof {
        vstd::utf8::decode_utf8_encode_utf8(b@.subrange(9, 9 + m64 as int));
    }
    let name_start = 9 + m;
    let name_bytes = slice_to_vec(slice_subrange(b.as_slice(), name_start, b.len()));
    proof {
        assert(b@.subrange(name_start as int, b@.len() as int) =~= b@.skip(name_start as int));
        let parsed = parse_str_field(b@.skip(1));
        assert(parsed matches Some((s, used)) && 1 + used == name_start as int && s == remote@);
    }
    let name = match bytes_to_string(name_bytes) {
        Some(s) => s,
        None => {
            return None;
        },
    };
    Some(ActionnerData { protocol, remote, name })
}

} // verus!
