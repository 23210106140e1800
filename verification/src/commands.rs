//! The protocol-agnostic command value carried in a client request, its
//! byte encoding on the client/server boundary, and the line-oriented
//! ASCII frame an Arduino actionner understands.

use vstd::prelude::*;
use vstd::utf8::encode_utf8;
use crate::text::{i8_to_string, int_repr};

verus! {

/// A command addressed to one device.
#[derive(Clone, Copy, PartialEq, Eq, Structural, Debug)]
pub enum ArduinoCommand {
    SetState { state: bool },
    Toggle,
    Check,
}

/// The characters of the Arduino frame for a command aimed at the device
/// with sub-identifier `id`: one ASCII line per command.
pub open spec fn frame_chars(c: ArduinoCommand, id: int) -> Seq<char> {
    match c {
        ArduinoCommand::SetState { state: true } => "on "@ + int_repr(id) + "\n"@,
        ArduinoCommand::SetState { state: false } => "off "@ + int_repr(id) + "\n"@,
        ArduinoCommand::Toggle => "tog "@ + int_repr(id) + "\n"@,
        ArduinoCommand::Check => "ard\n"@,
    }
}

/// The bytes of the Arduino frame: the UTF-8 (here plain ASCII) encoding
/// of its characters.
pub open spec fn frame_bytes(c: ArduinoCommand, id: int) -> Seq<u8> {
    encode_utf8(frame_chars(c, id))
}

impl ArduinoCommand {
    /// The Arduino frame for this command, as a string.
    pub fn repr(&self, id: i8) -> (r: String)
        ensures
            r@ == frame_chars(*self, id as int),
    {
        match self {
            ArduinoCommand::SetState { state } => {
                let mut out = if *state {
                    String::from_str("on ")
                } else {
                    String::from_str("off ")
                };
                out.append(i8_to_string(id).as_str());
                out.append("\n");
                out
            },
            ArduinoCommand::Toggle => {
                let mut out = String::from_str("tog ");
                out.append(i8_to_string(id).as_str());
                out.append("\n");
                out
            },
            ArduinoCommand::Check => String::from_str("ard\n"),
        }
    }

    /// The Arduino frame for this command, as the bytes written on the wire.
    pub fn frame(&self, id: i8) -> (r: Vec<u8>)
        ensures
            r@ == frame_bytes(*self, id as int),
    {
        let s = self.repr(id);
        s.as_str().as_bytes_vec()
    }
}

/// The byte encoding of a command as it travels from client to server:
/// a tag byte, then for `SetState` one state byte.
pub open spec fn cmd_payload(c: ArduinoCommand) -> Seq<u8> {
    match c {
        ArduinoCommand::SetState { state } => seq![0u8, if state { 1u8 } else { 0u8 }],
        ArduinoCommand::Toggle => seq![1u8],
        ArduinoCommand::Check => seq![2u8],
    }
}

/// The command denoted by a payload, `None` for anything malformed.
pub open spec fn parse_payload(b: Seq<u8>) -> Option<ArduinoCommand> {
    if b.len() == 2 && b[0] == 0 && (b[1] == 0 || b[1] == 1) {
        Some(ArduinoCommand::SetState { state: b[1] == 1 })
    } else if b.len() == 1 && b[0] == 1 {
        Some(ArduinoCommand::Toggle)
    } else if b.len() == 1 && b[0] == 2 {
        Some(ArduinoCommand::Check)
    } else {
        None
    }
}

/// Encoding a command and parsing the bytes back yields the same command:
/// the payload encoding is lossless.
pub proof fn lemma_payload_round_trip(c: ArduinoCommand)
    ensures
        parse_payload(cmd_payload(c)) == Some(c),
{
}

/// Serializes a command for the client/server boundary.
pub fn encode_command(c: &ArduinoCommand) -> (r: Vec<u8>)
    ensures
        r@ == cmd_payload(*c),
{
    let mut out: Vec<u8> = Vec::new();
    match c {
        ArduinoCommand::SetState { state } => {
            out.push(0);
            out.push(if *state {
                1
            } else {
                0
            });
        },
        ArduinoCommand::Toggle => {
            out.push(1);
        },
        ArduinoCommand::Check => {
            out.push(2);
        },
    }
    proof {
        assert(out@ =~= cmd_payload(*c));
    }
    out
}

/// Deserializes a command received on the client/server boundary.
pub fn decode_command(b: &[u8]) -> (r: Option<ArduinoCommand>)
    ensures
        r == parse_payload(b@),
{
    if b.len() == 2 && b[0] == 0 && (b[1] == 0 || b[1] == 1) {
        Some(ArduinoCommand::SetState { state: b[1] == 1 })
    } else if b.len() == 1 && b[0] == 1 {
        Some(ArduinoCommand::Toggle)
    } else if b.len() == 1 && b[0] == 2 {
        Some(ArduinoCommand::Check)
    } else {
        None
    }
}

} // verus!
