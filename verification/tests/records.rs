use home_manager::codec::{
    decode_actionner, decode_key, decode_object, encode_actionner, encode_key, encode_object,
};
use home_manager::objects::{ActionnerData, ActionnerId, Object, ObjectKind, Protocol};

#[test]
fn key_bytes_round_trip() {
    for id in [0u32, 1, 41, 255, 256, u32::MAX] {
        let k = encode_key(id);
        assert_eq!(k.len(), 4);
        assert_eq!(decode_key(&k), Some(id));
    }
    assert_eq!(decode_key(&vec![1, 2, 3]), None);
    assert_eq!(decode_key(&vec![1, 2, 3, 4, 5]), None);
}

#[test]
fn device_record_round_trip() {
    let obj = Object {
        actionner_id: 12,
        id_in_actionner: ActionnerId::Arduino(-7),
        kind: ObjectKind::LED,
        name: String::from("salon lamp \u{00e9}"),
    };
    let bytes = encode_object(&obj);
    let back = decode_object(&bytes).unwrap();
    assert_eq!(back.actionner_id, 12);
    assert!(matches!(back.id_in_actionner, ActionnerId::Arduino(-7)));
    assert_eq!(back.name, "salon lamp \u{00e9}");
}

#[test]
fn device_record_round_trip_ssh_sub_identifier() {
    let obj = Object {
        actionner_id: 3,
        id_in_actionner: ActionnerId::SSH(String::from("gpio17")),
        kind: ObjectKind::LED,
        name: String::from(""),
    };
    let bytes = encode_object(&obj);
    let back = decode_object(&bytes).unwrap();
    assert!(matches!(back.id_in_actionner, ActionnerId::SSH(s) if s == "gpio17"));
    assert_eq!(back.name, "");
}

#[test]
fn device_record_rejects_malformed_bytes() {
    assert_eq!(decode_object(&vec![]).map(|o| o.actionner_id), None);
    assert_eq!(decode_object(&vec![0, 0, 0, 0]).map(|o| o.actionner_id), None);
    // unknown kind tag
    assert!(decode_object(&vec![0, 0, 0, 0, 9, 0, 1]).is_none());
    // unknown sub-identifier tag
    assert!(decode_object(&vec![0, 0, 0, 0, 0, 7, 1]).is_none());
}

#[test]
fn actionner_record_round_trip() {
    let data = ActionnerData {
        protocol: Protocol::Arduino,
        remote: String::from("192.168.1.50:4242"),
        name: String::from("garage"),
    };
    let bytes = encode_actionner(&data);
    let back = decode_actionner(&bytes).unwrap();
    assert_eq!(back.protocol, Protocol::Arduino);
    assert_eq!(back.remote, "192.168.1.50:4242");
    assert_eq!(back.name, "garage");

    let data = ActionnerData {
        protocol: Protocol::SSH,
        remote: String::from("host"),
        name: String::from(""),
    };
    let back = decode_actionner(&encode_actionner(&data)).unwrap();
    assert_eq!(back.protocol, Protocol::SSH);
}

#[test]
fn actionner_record_rejects_malformed_bytes() {
    assert!(decode_actionner(&vec![]).is_none());
    // unknown protocol tag
    assert!(decode_actionner(&vec![9, 0, 0, 0, 0, 0, 0, 0, 0]).is_none());
    // length prefix longer than the record
    assert!(decode_actionner(&vec![0, 255, 0, 0, 0, 0, 0, 0, 0]).is_none());
}
