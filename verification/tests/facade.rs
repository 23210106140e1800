use home_manager::actionners::Actionners;
use home_manager::commands::{encode_command, ArduinoCommand};
use home_manager::handler::ProbeOutcome;
use home_manager::server::{Code, HomeServer};

fn fresh_dir(tag: &str) -> String {
    let nanos = std::time::SystemTime::now()
        .duration_since(std::time::UNIX_EPOCH)
        .unwrap()
        .as_nanos();
    format!("/tmp/home_manager_facade_{}_{}", tag, nanos)
}

fn open_empty(root: &str) -> HomeServer {
    let pending = Actionners::open(root).unwrap();
    let actionners = pending.resolve(Vec::new()).unwrap();
    HomeServer::open(root, actionners).unwrap()
}

fn yes_reply() -> ProbeOutcome {
    ProbeOutcome::Reply(b"yes ok\n".to_vec())
}

#[test]
fn end_to_end_register_and_command() {
    let root = fresh_dir("scenario");
    let mut server = open_empty(&root);

    let id = server
        .register_actionner(
            String::from("ard1"),
            "Arduino",
            String::from("127.0.0.1:9999"),
            yes_reply(),
        )
        .unwrap();
    assert_eq!(id, 0);

    let dev = server
        .register_device("LED", 0, String::from("led1"), "5")
        .unwrap();
    assert_eq!(dev, 0);

    let payload = encode_command(&ArduinoCommand::Toggle);
    let frame = server.command(0, &payload).unwrap().unwrap();
    assert_eq!(frame.payload, b"tog 5\n".to_vec());
    assert_eq!(frame.address, "127.0.0.1:9999");

    let reply = HomeServer::command_reply(Ok(())).unwrap();
    assert_eq!(reply, "");
}

#[test]
fn device_and_actionner_ids_are_independent() {
    let root = fresh_dir("isolation");
    let mut server = open_empty(&root);
    assert_eq!(
        server
            .register_actionner(
                String::from("host"),
                "Arduino",
                String::from("127.0.0.1:1"),
                yes_reply(),
            )
            .unwrap(),
        0
    );
    for expected in 0u32..3 {
        let id = server
            .register_device("LED", 0, format!("led{}", expected), "1")
            .unwrap();
        assert_eq!(id, expected);
    }
    // three devices later, the next actionner still gets id 1, not 4
    assert_eq!(
        server
            .register_actionner(
                String::from("other"),
                "Arduino",
                String::from("127.0.0.1:2"),
                yes_reply(),
            )
            .unwrap(),
        1
    );
}

#[test]
fn failed_liveness_gate_registers_nothing() {
    let root = fresh_dir("gate");
    let mut server = open_empty(&root);
    let before = server.list_actionner().len();

    let err = server
        .register_actionner(
            String::from("dead"),
            "Arduino",
            String::from("127.0.0.1:9999"),
            ProbeOutcome::IoFailed(String::from("connection refused")),
        )
        .unwrap_err();
    assert_eq!(err.code, Code::Aborted);
    assert_eq!(err.message, "could not create handler: connection refused");
    assert_eq!(server.list_actionner().len(), before);

    let err = server
        .register_actionner(
            String::from("mute"),
            "Arduino",
            String::from("127.0.0.1:9999"),
            ProbeOutcome::Reply(b"nope".to_vec()),
        )
        .unwrap_err();
    assert_eq!(err.code, Code::Internal);
    assert_eq!(err.message, "error creating handler");
    assert_eq!(server.list_actionner().len(), before);
}

#[test]
fn request_validation_statuses() {
    let root = fresh_dir("validation");
    let mut server = open_empty(&root);

    let err = server
        .register_actionner(
            String::from("x"),
            "zigbee",
            String::from("127.0.0.1:1"),
            yes_reply(),
        )
        .unwrap_err();
    assert_eq!(err.code, Code::InvalidArgument);
    assert_eq!(err.message, "invalid protocol");

    let err = server
        .register_device("toaster", 0, String::from("x"), "1")
        .unwrap_err();
    assert_eq!(err.code, Code::InvalidArgument);
    assert_eq!(err.message, "invalid category");

    let err = server
        .register_device("LED", 3, String::from("x"), "1")
        .unwrap_err();
    assert_eq!(err.code, Code::NotFound);
    assert_eq!(err.message, "actionner not found");

    server
        .register_actionner(
            String::from("a"),
            "arduino",
            String::from("127.0.0.1:1"),
            yes_reply(),
        )
        .unwrap();
    let err = server
        .register_device("LED", 0, String::from("x"), "300")
        .unwrap_err();
    assert_eq!(err.code, Code::InvalidArgument);
    assert_eq!(err.message, "invalid id for protocol");

    let err = server.command(42, &[1]).unwrap_err();
    assert_eq!(err.code, Code::NotFound);
    assert_eq!(err.message, "device not found");
}

#[test]
fn command_decodes_payload_variants() {
    let root = fresh_dir("payloads");
    let mut server = open_empty(&root);
    server
        .register_actionner(
            String::from("a"),
            "Arduino",
            String::from("127.0.0.1:1"),
            yes_reply(),
        )
        .unwrap();
    server
        .register_device("LED", 0, String::from("led"), "-2")
        .unwrap();

    let on = encode_command(&ArduinoCommand::SetState { state: true });
    let frame = server.command(0, &on).unwrap().unwrap();
    assert_eq!(frame.payload, b"on -2\n".to_vec());

    let off = encode_command(&ArduinoCommand::SetState { state: false });
    let frame = server.command(0, &off).unwrap().unwrap();
    assert_eq!(frame.payload, b"off -2\n".to_vec());

    // a malformed payload is a handler failure, surfaced as internal
    let err = server.command(0, &[9, 9, 9]).unwrap_err();
    assert_eq!(err.code, Code::Internal);
}

#[test]
fn listings_show_display_fields() {
    let root = fresh_dir("listing");
    let mut server = open_empty(&root);
    server
        .register_actionner(
            String::from("hall"),
            "Arduino",
            String::from("127.0.0.1:7"),
            yes_reply(),
        )
        .unwrap();
    server
        .register_device("LED", 0, String::from("hall light"), "3")
        .unwrap();

    let devices = server.list_device().unwrap();
    assert_eq!(devices.len(), 1);
    assert_eq!(devices[0].id, 0);
    assert_eq!(devices[0].actionner_id, 0);
    assert_eq!(devices[0].kind, "LED");
    assert_eq!(devices[0].kind_id, 1);
    assert_eq!(devices[0].name, "hall light");
    assert_eq!(devices[0].id_in_actionner, "3");

    let actionners = server.list_actionner();
    assert_eq!(actionners.len(), 1);
    assert_eq!(actionners[0].id, 0);
    assert_eq!(actionners[0].name, "hall");
    assert_eq!(actionners[0].protocol, "Arduino");
}

#[test]
fn vanished_actionner_makes_command_a_no_op() {
    let root = fresh_dir("vanished");
    {
        let mut server = open_empty(&root);
        server
            .register_actionner(
                String::from("a"),
                "Arduino",
                String::from("127.0.0.1:1"),
                yes_reply(),
            )
            .unwrap();
        server
            .register_device("LED", 0, String::from("led"), "1")
            .unwrap();
    }
    // reopen: the actionner fails its probe and is evicted, which also
    // orphans (and removes) its device at the device-registry open
    let pending = Actionners::open(&root).unwrap();
    let outcomes = vec![ProbeOutcome::IoFailed(String::from("gone"))];
    let actionners = pending.resolve(outcomes).unwrap();
    let server = HomeServer::open(&root, actionners).unwrap();
    let err = server.command(0, &encode_command(&ArduinoCommand::Toggle)).unwrap_err();
    assert_eq!(err.code, Code::NotFound);
    assert_eq!(server.list_device().unwrap().len(), 0);
}

#[test]
fn command_without_live_handler_still_succeeds() {
    // a device can outlive its actionner within a run; commanding it
    // is a no-op that still acknowledges, not an error
    let dev_root = fresh_dir("race_dev");
    let act_root = fresh_dir("race_act");
    let known = vec![0u32];
    let mut devices = home_manager::devices::Devices::open(&dev_root, &known).unwrap();
    devices
        .add(
            home_manager::objects::ObjectKind::LED,
            0,
            String::from("led"),
            home_manager::objects::ActionnerId::Arduino(1),
        )
        .unwrap();
    let actionners = Actionners::open(&act_root).unwrap().resolve(Vec::new()).unwrap();
    let server = HomeServer { devices, actionners };

    let payload = encode_command(&ArduinoCommand::Toggle);
    let frame = server.command(0, &payload).unwrap();
    assert!(frame.is_none());
    assert_eq!(HomeServer::command_reply(Ok(())).unwrap(), "");
}

#[test]
fn command_reply_reports_send_outcome() {
    assert_eq!(HomeServer::command_reply(Ok(())).unwrap(), "");
    let err = HomeServer::command_reply(Err(String::from("broken pipe"))).unwrap_err();
    assert_eq!(err.code, Code::Internal);
    assert_eq!(err.message, "");
}
