//! LoRa agents: the commands they take, the packets they deliver, the
//! choice of agent from its configuration, and the line protocol of the
//! rf95modem serial modem.
use crate::global::LoRaConfig;
use crate::parse::{decimal_in_range, parse_i16, parse_u32, split_char, split_spec};
use crate::strategy::digest::{format_upper_hex, upper_hex};
use crate::text::{is_prefix, same_text, starts_with};
use vstd::prelude::*;
use vstd::string::*;

verus! {

/// A command for a LoRa agent.
pub enum Command {
    /// Transmit these bytes.
    Send(Vec<u8>),
    /// Shut the agent down.
    Close(),
}

/// A packet received over LoRa.
pub struct RxPacket {
    pub rssi: i16,
    pub snr: i16,
    pub data: Vec<u8>,
    /// Seconds since the UNIX epoch.
    pub recv_time: u64,
}

/// How to reach the LoRa hardware.
pub enum AgentSpec {
    /// An rf95modem on a serial port.
    Serial { port_name: String },
    /// The websocket of an emulator.
    Websocket { node_id: String, ip: String, port: u32 },
}

/// Why a LoRa configuration names no usable agent.
#[derive(PartialEq, Eq, Structural, Clone, Copy, Debug)]
pub enum AgentError {
    /// The agent type is neither `serial` nor `websocket`.
    UnknownType,
    /// The websocket argument is not `ip:port:node`.
    MissingPart,
    /// The port of the websocket argument is no `u32`.
    BadPort,
}

/// The agent a configuration names: `serial` with the port as argument, or
/// `websocket` with the argument `ip:port:node_id`.
pub fn agent_spec(config: &LoRaConfig) -> (r: Result<AgentSpec, AgentError>)
    ensures
        config.agent_type@ == "serial"@ ==> (r matches Ok(AgentSpec::Serial { port_name })
            && port_name@ == config.agent_arg@),
        config.agent_type@ == "websocket"@ ==> {
            let parts = split_spec(config.agent_arg@, ':');
            &&& parts.len() < 3 ==> r == Err::<AgentSpec, AgentError>(AgentError::MissingPart)
            &&& parts.len() >= 3 && decimal_in_range(parts[1], false, 0, u32::MAX as int) is None
                ==> r == Err::<AgentSpec, AgentError>(AgentError::BadPort)
            &&& parts.len() >= 3 && decimal_in_range(parts[1], false, 0, u32::MAX as int) is Some
                ==> (r matches Ok(AgentSpec::Websocket { node_id, ip, port }) && node_id@
                == parts[2] && ip@ == parts[0] && port as int == decimal_in_range(
                parts[1],
                false,
                0,
                u32::MAX as int,
            )->0)
        },
        config.agent_type@ != "serial"@ && config.agent_type@ != "websocket"@ ==> r == Err::<
            AgentSpec,
            AgentError,
        >(AgentError::UnknownType),
{
    proof {
        reveal_strlit("serial");
        reveal_strlit("websocket");
        assert("serial"@.len() != "websocket"@.len());
    }
    if same_text(config.agent_type.as_str(), "serial") {
        Ok(AgentSpec::Serial { port_name: config.agent_arg.clone() })
    } else if same_text(config.agent_type.as_str(), "websocket") {
        let parts = split_char(config.agent_arg.as_str(), ':');
        if parts.len() < 3 {
            return Err(AgentError::MissingPart);
        }
        let node_id = parts[2].clone();
        let ip = parts[0].clone();
        match parse_u32(parts[1].as_str()) {
            Some(port) => Ok(AgentSpec::Websocket { node_id, ip, port }),
            None => Err(AgentError::BadPort),
        }
    } else {
        Err(AgentError::UnknownType)
    }
}

/// The value of a hexadecimal digit, either case.
pub open spec fn hex_value(c: char) -> Option<int> {
    if '0' <= c && c <= '9' {
        Some((c as int) - ('0' as int))
    } else if 'a' <= c && c <= 'f' {
        Some((c as int) - ('a' as int) + 10)
    } else if 'A' <= c && c <= 'F' {
        Some((c as int) - ('A' as int) + 10)
    } else {
        None
    }
}

/// The bytes that hexadecimal text writes, two digits a byte, high digit
/// first; `None` for text of odd length or with another character.
pub open spec fn hex_decoded(s: Seq<char>) -> Option<Seq<u8>> {
    if s.len() % 2 == 0 && forall|i: int| 0 <= i < s.len() ==> (#[trigger] hex_value(s[i])) is Some {
        Some(
            Seq::new(
                s.len() / 2,
                |i: int| (hex_value(s[2 * i])->0 * 16 + hex_value(s[2 * i + 1])->0) as u8,
            ),
        )
    } else {
        None
    }
}

/// `hex::decode` on the UTF-8 bytes of `s`: the bytes that the hexadecimal
/// text writes, or `None` where hex reports an odd length or a character
/// that is no hexadecimal digit (a character beyond ASCII is never one).
#[verifier::external_body]
fn hex_decode(s: &str) -> (r: Option<Vec<u8>>)
    ensures
        r is Some == hex_decoded(s@) is Some,
        r matches Some(v) ==> v@ == hex_decoded(s@)->0,
{
    hex::decode(s).ok()
}

/// The bytes of a frame in upper-case hexadecimal, each byte without a
/// leading zero.
pub open spec fn tx_hex(bytes: Seq<u8>) -> Seq<char>
    decreases bytes.len(),
{
    if bytes.len() == 0 {
        Seq::empty()
    } else {
        tx_hex(bytes.drop_last()) + upper_hex(bytes.last() as u64)
    }
}

/// The modem command that transmits `bytes`.
pub open spec fn tx_line(bytes: Seq<u8>) -> Seq<char> {
    "AT+TX="@ + tx_hex(bytes) + "\n"@
}

/// The command line that makes the modem transmit `msg`.
pub fn tx_command(msg: &Vec<u8>) -> (r: String)
    ensures
        r@ == tx_line(msg@),
{
    let mut hex = String::new();
    let mut i: usize = 0;
    while i < msg.len()
        invariant
            i <= msg@.len(),
            hex@ == tx_hex(msg@.take(i as int)),
        decreases msg@.len() - i,
    {
        proof {
            assert(msg@.take(i + 1).drop_last() =~= msg@.take(i as int));
        }
        let digits = format_upper_hex(msg[i] as u64);
        hex.append(digits.as_str());
        i = i + 1;
    }
    proof {
        assert(msg@.take(msg@.len() as int) =~= msg@);
    }
    let mut line = "AT+TX=".to_owned();
    line.append(hex.as_str());
    line.append("\n");
    line
}

/// What a line from the modem says.
pub enum ModemLine {
    /// A received frame with its signal strength and noise ratio.
    Rx { data: Vec<u8>, rssi: i16, snr: i16 },
    /// A received frame whose data is no hexadecimal text; it is dropped.
    BadHex,
    /// A received-frame line without its fields; reading stops on it.
    Malformed,
    /// The text after `Latitude:`.
    Latitude(String),
    /// The text after `Longitude:`.
    Longitude(String),
    /// Any other line.
    Other,
}

pub open spec fn i16_value(s: Seq<char>) -> Option<int> {
    decimal_in_range(s, true, i16::MIN as int, i16::MAX as int)
}

/// What the modem line `line` says: `+RX <len>,<hex>,<rssi>,<snr>` is a
/// received frame; `Latitude:<v>` and `Longitude:<v>` give a coordinate.
pub fn parse_modem_line(line: &str) -> (r: ModemLine)
    ensures
        is_prefix("+RX "@, line@) ==> {
            let f = split_spec(line@, ',');
            if f.len() < 2 {
                r is Malformed
            } else if hex_decoded(f[1]) is None {
                r is BadHex
            } else if f.len() < 4 || i16_value(f[2]) is None || i16_value(f[3]) is None {
                r is Malformed
            } else {
                r matches ModemLine::Rx { data, rssi, snr } && data@ == hex_decoded(f[1])->0
                    && rssi as int == i16_value(f[2])->0 && snr as int == i16_value(f[3])->0
            }
        },
        !is_prefix("+RX "@, line@) && is_prefix("Latitude"@, line@) ==> {
            let f = split_spec(line@, ':');
            if f.len() == 2 {
                r matches ModemLine::Latitude(t) && t@ == f[1]
            } else {
                r is Other
            }
        },
        !is_prefix("+RX "@, line@) && !is_prefix("Latitude"@, line@) && is_prefix(
            "Longitude"@,
            line@,
        ) ==> {
            let f = split_spec(line@, ':');
            if f.len() == 2 {
                r matches ModemLine::Longitude(t) && t@ == f[1]
            } else {
                r is Other
            }
        },
        !is_prefix("+RX "@, line@) && !is_prefix("Latitude"@, line@) && !is_prefix(
            "Longitude"@,
            line@,
        ) ==> r is Other,
{
    if starts_with(line, "+RX ") {
        let f = split_char(line, ',');
        if f.len() < 2 {
            return ModemLine::Malformed;
        }
        let data = match hex_decode(f[1].as_str()) {
            Some(d) => d,
            None => return ModemLine::BadHex,
        };
        if f.len() < 4 {
            return ModemLine::Malformed;
        }
        let rssi = match parse_i16(f[2].as_str()) {
            Some(v) => v,
            None => return ModemLine::Malformed,
        };
        let snr = match parse_i16(f[3].as_str()) {
            Some(v) => v,
            None => return ModemLine::Malformed,
        };
        ModemLine::Rx { data, rssi, snr }
    } else if starts_with(line, "Latitude") {
        let f = split_char(line, ':');
        if f.len() == 2 {
            ModemLine::Latitude(f[1].clone())
        } else {
            ModemLine::Other
        }
    } else if starts_with(line, "Longitude") {
        let f = split_char(line, ':');
        if f.len() == 2 {
            ModemLine::Longitude(f[1].clone())
        } else {
            ModemLine::Other
        }
    } else {
        ModemLine::Other
    }
}

/// The characters as a string: `String`'s `FromIterator<char>`.
#[verifier::external_body]
pub(crate) fn string_of_chars(chars: &Vec<char>) -> (s: String)
    ensures
        s@ == chars@,
{
    chars.iter().collect()
}

/// Assembles the bytes read from the modem into lines; each byte counts as
/// the character with its code.
pub struct LineBuffer {
    pub pending: Vec<char>,
}

impl LineBuffer {
    pub fn new() -> (b: LineBuffer)
        ensures
            b.pending@ == Seq::<char>::empty(),
    {
        LineBuffer { pending: Vec::new() }
    }

    /// Takes one byte: a newline ends the pending line, which is returned
    /// and forgotten; any other byte joins it.
    pub fn push_byte(&mut self, byte: u8) -> (line: Option<String>)
        ensures
            byte == 10 ==> (line matches Some(l) && l@ == old(self).pending@
                && final(self).pending@ == Seq::<char>::empty()),
            byte != 10 ==> line is None && final(self).pending@ == old(self).pending@.push(
                byte as char,
            ),
    {
        if byte == 10 {
            let l = string_of_chars(&self.pending);
            self.pending = Vec::new();
            Some(l)
        } else {
            self.pending.push(byte as char);
            None
        }
    }
}

} // verus!
