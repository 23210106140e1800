use home_manager::commands::{decode_command, encode_command, ArduinoCommand};
use home_manager::ctl;
use home_manager::objects::{ActionnerId, ObjectKind, Protocol};
use home_manager::text::{i8_to_string, parse_i8};

#[test]
fn arduino_frames_exact_bytes() {
    assert_eq!(
        ArduinoCommand::SetState { state: true }.frame(3),
        b"on 3\n".to_vec()
    );
    assert_eq!(
        ArduinoCommand::SetState { state: false }.frame(5),
        b"off 5\n".to_vec()
    );
    assert_eq!(ArduinoCommand::Toggle.frame(-1), b"tog -1\n".to_vec());
    assert_eq!(ArduinoCommand::Check.frame(0), b"ard\n".to_vec());
    assert_eq!(ArduinoCommand::Check.frame(77), b"ard\n".to_vec());
}

#[test]
fn arduino_frame_strings() {
    assert_eq!(ArduinoCommand::SetState { state: true }.repr(3), "on 3\n");
    assert_eq!(ArduinoCommand::Toggle.repr(-128), "tog -128\n");
    assert_eq!(ArduinoCommand::SetState { state: false }.repr(127), "off 127\n");
}

#[test]
fn i8_decimal_strings() {
    assert_eq!(i8_to_string(0), "0");
    assert_eq!(i8_to_string(7), "7");
    assert_eq!(i8_to_string(-1), "-1");
    assert_eq!(i8_to_string(127), "127");
    assert_eq!(i8_to_string(-128), "-128");
}

#[test]
fn parse_i8_accepts_valid_indices() {
    assert_eq!(parse_i8("0"), Some(0));
    assert_eq!(parse_i8("5"), Some(5));
    assert_eq!(parse_i8("+5"), Some(5));
    assert_eq!(parse_i8("-1"), Some(-1));
    assert_eq!(parse_i8("127"), Some(127));
    assert_eq!(parse_i8("-128"), Some(-128));
    assert_eq!(parse_i8("007"), Some(7));
}

#[test]
fn parse_i8_rejects_invalid_indices() {
    assert_eq!(parse_i8(""), None);
    assert_eq!(parse_i8("+"), None);
    assert_eq!(parse_i8("-"), None);
    assert_eq!(parse_i8("abc"), None);
    assert_eq!(parse_i8("1a"), None);
    assert_eq!(parse_i8("128"), None);
    assert_eq!(parse_i8("-129"), None);
    assert_eq!(parse_i8("300"), None);
    assert_eq!(parse_i8(" 5"), None);
}

#[test]
fn command_payload_round_trips() {
    let commands = [
        ArduinoCommand::SetState { state: true },
        ArduinoCommand::SetState { state: false },
        ArduinoCommand::Toggle,
        ArduinoCommand::Check,
    ];
    for c in commands {
        let bytes = encode_command(&c);
        assert_eq!(decode_command(&bytes), Some(c));
    }
}

#[test]
fn command_payload_rejects_malformed_bytes() {
    assert_eq!(decode_command(&[]), None);
    assert_eq!(decode_command(&[0]), None);
    assert_eq!(decode_command(&[0, 2]), None);
    assert_eq!(decode_command(&[3]), None);
    assert_eq!(decode_command(&[1, 0]), None);
    assert_eq!(decode_command(&[2, 0]), None);
}

#[test]
fn protocol_names_and_parsing() {
    assert_eq!(Protocol::Arduino.name(), "Arduino");
    assert_eq!(Protocol::SSH.name(), "SSH");
    assert_eq!(Protocol::parse("arduino"), Some(Protocol::Arduino));
    assert_eq!(Protocol::parse("Arduino"), Some(Protocol::Arduino));
    assert_eq!(Protocol::parse("ARDUINO"), Some(Protocol::Arduino));
    assert_eq!(Protocol::parse("ssh"), Some(Protocol::SSH));
    assert_eq!(Protocol::parse("SSH"), Some(Protocol::SSH));
    assert_eq!(Protocol::parse("serial"), None);
    assert_eq!(Protocol::parse(""), None);
}

#[test]
fn object_kind_names_and_parsing() {
    assert_eq!(ObjectKind::LED.name(), "LED");
    assert_eq!(ObjectKind::LED.id(), 1);
    assert_eq!(ObjectKind::parse("led"), Some(ObjectKind::LED));
    assert_eq!(ObjectKind::parse("LED"), Some(ObjectKind::LED));
    assert_eq!(ObjectKind::parse("lamp"), None);
}

#[test]
fn actionner_id_display_forms() {
    assert_eq!(ActionnerId::Arduino(5).repr(), "5");
    assert_eq!(ActionnerId::Arduino(-3).repr(), "-3");
    assert_eq!(ActionnerId::SSH(String::from("gpio17")).repr(), "gpio17");
}

#[test]
fn client_command_words_parse() {
    assert_eq!(ctl::ArduinoCommand::parse("on"), Some(ctl::ArduinoCommand::On));
    assert_eq!(ctl::ArduinoCommand::parse("ON"), Some(ctl::ArduinoCommand::On));
    assert_eq!(ctl::ArduinoCommand::parse("off"), Some(ctl::ArduinoCommand::Off));
    assert_eq!(ctl::ArduinoCommand::parse("Toggle"), Some(ctl::ArduinoCommand::Toggle));
    assert_eq!(ctl::ArduinoCommand::parse("blink"), None);
    assert_eq!(ctl::ArduinoCommand::parse(""), None);
}

#[test]
fn client_commands_map_to_payloads() {
    assert_eq!(
        ctl::ArduinoCommand::On.to_command(),
        ArduinoCommand::SetState { state: true }
    );
    assert_eq!(
        ctl::ArduinoCommand::Off.to_command(),
        ArduinoCommand::SetState { state: false }
    );
    assert_eq!(ctl::ArduinoCommand::Toggle.to_command(), ArduinoCommand::Toggle);
    assert_eq!(
        ctl::ArduinoCommand::On.payload(),
        encode_command(&ArduinoCommand::SetState { state: true })
    );
}
