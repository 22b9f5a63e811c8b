//! The grammar of the lines that a server sends.
use vstd::prelude::*;
use vstd::utf8::{decode_utf8, is_char_boundary, valid_utf8};

use crate::text::{parse_decimal, split_space, trimmed};

verus! {

/// What a line says.
pub enum Header {
    /// Its bytes are not UTF-8.
    NotUtf8,
    /// There is nothing in it, as at the end of a payload.
    Blank,
    /// The server wants to know whether the client is still there.
    Ping,
    /// The server presents itself; the text is JSON.
    Info(Seq<char>),
    /// The server is about to close the connection.
    ServerErr,
    /// The server acknowledges a command.
    ServerOk,
    /// A message with a payload of `len` bytes follows.
    Msg { topic: Seq<char>, sid: usize, len: usize },
    /// It is none of these.
    Invalid,
}

/// Whether a packet can be taken apart: where it is UTF-8, its last two bytes are whole characters.
pub open spec fn is_readable(packet: Seq<u8>) -> bool {
    valid_utf8(packet) ==> packet.len() >= 2 && is_char_boundary(packet, packet.len() - 2)
}

/// The line in a packet: all but the two bytes of the delimiter.
pub open spec fn line_of(packet: Seq<u8>) -> Seq<char> {
    decode_utf8(packet.take(packet.len() - 2))
}

/// The command of a line, which is its first word, and the rest, after one space.
pub open spec fn command_of(line: Seq<char>) -> (Seq<char>, Seq<char>) {
    let inner = trimmed(line);
    match split_space(inner) {
        Some(parts) => parts,
        None => (inner, Seq::empty()),
    }
}

/// What follows the command MSG: a topic, the number of the subscription, perhaps a topic to reply
/// to, and the length of the payload, each after one space.
pub open spec fn msg_header_of(args: Seq<char>) -> Header {
    match split_space(args) {
        Some((topic, rest)) => match split_space(rest) {
            Some((sid, rest)) => {
                let len = match split_space(rest) {
                    Some((reply_to, len)) => len,
                    None => rest,
                };
                match (parse_decimal(sid), parse_decimal(len)) {
                    (Some(sid), Some(len)) => Header::Msg { topic, sid, len },
                    _ => Header::Invalid,
                }
            },
            None => Header::Invalid,
        },
        None => Header::Invalid,
    }
}

/// What a line says.
pub open spec fn header_of_line(line: Seq<char>) -> Header {
    let (command, args) = command_of(line);
    if line.len() == 0 {
        Header::Blank
    } else if command == "PING"@ {
        Header::Ping
    } else if command == "INFO"@ {
        Header::Info(args)
    } else if command == "-ERR"@ {
        Header::ServerErr
    } else if command == "+OK"@ {
        Header::ServerOk
    } else if command == "MSG"@ {
        msg_header_of(args)
    } else {
        Header::Invalid
    }
}

/// What a packet says: a line with its delimiter.
pub open spec fn header_of(packet: Seq<u8>) -> Header {
    if valid_utf8(packet) {
        header_of_line(line_of(packet))
    } else {
        Header::NotUtf8
    }
}

} // verus!
