//! The command vocabulary a client-side tool offers its user, and its
//! translation into the payload sent to the server.

use vstd::prelude::*;
use crate::commands;
use crate::commands::cmd_payload;
use crate::text::{eq_ignore_ascii_case, lower_seq};

verus! {

/// The client command a word of a request names, matched ignoring
/// ASCII case.
pub open spec fn client_command_parse(s: Seq<char>) -> Option<ArduinoCommand> {
    if lower_seq(s) == "on"@ {
        Some(ArduinoCommand::On)
    } else if lower_seq(s) == "off"@ {
        Some(ArduinoCommand::Off)
    } else if lower_seq(s) == "toggle"@ {
        Some(ArduinoCommand::Toggle)
    } else {
        None
    }
}

/// A command as a client names it.
#[derive(Clone, Copy, PartialEq, Eq, Structural, Debug)]
pub enum ArduinoCommand {
    On,
    Off,
    Toggle,
}

/// The protocol-agnostic command a client request stands for.
pub open spec fn client_command(c: ArduinoCommand) -> commands::ArduinoCommand {
    match c {
        ArduinoCommand::On => commands::ArduinoCommand::SetState { state: true },
        ArduinoCommand::Off => commands::ArduinoCommand::SetState { state: false },
        ArduinoCommand::Toggle => commands::ArduinoCommand::Toggle,
    }
}

impl ArduinoCommand {
    /// Parses the command word of a client request, ignoring ASCII
    /// case.
    pub fn parse(s: &str) -> (r: Option<ArduinoCommand>)
        ensures
            r == client_command_parse(s@),
    {
        proof {
            reveal_strlit("on");
            reveal_strlit("off");
            reveal_strlit("toggle");
            assert(lower_seq("on"@) =~= "on"@);
            assert(lower_seq("off"@) =~= "off"@);
            assert(lower_seq("toggle"@) =~= "toggle"@);
        }
        if eq_ignore_ascii_case(s, "on") {
            Some(ArduinoCommand::On)
        } else if eq_ignore_ascii_case(s, "off") {
            Some(ArduinoCommand::Off)
        } else if eq_ignore_ascii_case(s, "toggle") {
            Some(ArduinoCommand::Toggle)
        } else {
            None
        }
    }

    /// The protocol-agnostic command value this client command stands for.
    pub fn to_command(&self) -> (r: commands::ArduinoCommand)
        ensures
            r == client_command(*self),
    {
        match self {
            ArduinoCommand::On => commands::ArduinoCommand::SetState { state: true },
            ArduinoCommand::Off => commands::ArduinoCommand::SetState { state: false },
            ArduinoCommand::Toggle => commands::ArduinoCommand::Toggle,
        }
    }

    /// The payload a client sends for this command.
    pub fn payload(&self) -> (r: Vec<u8>)
        ensures
            r@ == cmd_payload(client_command(*self)),
    {
        let c = self.to_command();
        commands::encode_command(&c)
    }
}

} // verus!
