//! The entities that clients and server exchange.

use std::collections::HashMap;
use vstd::prelude::*;
use vstd::string::*;
use crate::text::{
    chars_of, decimal, decimal_string, find_char, first_index_of, lemma_first_index_of,
};

verus! {

/// What can end the handling of one connection without a reply.
#[derive(Debug, Clone, Copy, PartialEq, Eq, Structural)]
pub enum Error {
    /// A write request was framed without a content line.
    MissingContent,
    /// The peer's address holds no ':' behind which a port could stand.
    AddressResolution,
}

impl Error {
    /// What the error says.
    pub open spec fn text(self) -> Seq<char> {
        match self {
            Error::MissingContent => "Failed to get content from request"@,
            Error::AddressResolution => "Failed to get ip from peer"@,
        }
    }

    /// What the error says.
    pub fn message(self) -> (message: &'static str)
        ensures
            message@ == self.text(),
    {
        match self {
            Error::MissingContent => "Failed to get content from request",
            Error::AddressResolution => "Failed to get ip from peer",
        }
    }
}

/// The identifier a client gave itself for its session.
#[derive(Debug, Clone, Copy, PartialEq, Eq, Hash, Structural)]
pub struct ClientID(pub usize);

impl ClientID {
    /// The id as a decimal numeral.
    pub fn to_string(&self) -> (text: String)
        ensures
            text@ == decimal(self.0 as nat),
    {
        decimal_string(self.0)
    }
}

/// One point of a stroke. Each coordinate is kept as the bit pattern of a
/// 32-bit IEEE-754 number: the server stores and returns points and never
/// computes on them.
#[derive(Debug, Clone, Copy, PartialEq, Eq, Structural)]
pub struct SPos2 {
    pub x: u32,
    pub y: u32,
}

/// Whether the strokes were just reset. On the wire `Unset` reads "none"
/// and `Clear` reads "clear".
#[derive(Debug, Clone, Copy, PartialEq, Eq, Structural)]
pub enum Flag {
    /// No reset is in flight.
    Unset,
    /// The strokes were reset: a client that sees this drops its own.
    Clear,
}

impl Default for Flag {
    fn default() -> (flag: Flag)
        ensures
            flag == Flag::Unset,
    {
        Flag::Unset
    }
}

/// The strokes by line id, and the reset flag.
#[derive(Debug)]
pub struct SendLines {
    pub lines: HashMap<usize, Vec<SPos2>>,
    pub flag: Flag,
}

/// What a `SendLines` holds: each line id with the points of its stroke, and the flag.
pub struct Drawing {
    pub lines: Map<usize, Seq<SPos2>>,
    pub flag: Flag,
}

impl View for SendLines {
    type V = Drawing;

    open spec fn view(&self) -> Drawing {
        Drawing {
            lines: Map::new(
                |id: usize| self.lines@.contains_key(id),
                |id: usize| self.lines@[id]@,
            ),
            flag: self.flag,
        }
    }
}

impl Default for SendLines {
    fn default() -> (empty: SendLines)
        ensures
            empty@.lines == Map::<usize, Seq<SPos2>>::empty(),
            empty@.flag == Flag::Unset,
    {
        let empty = SendLines { lines: HashMap::new(), flag: Flag::Unset };
        assert(empty@.lines =~= Map::<usize, Seq<SPos2>>::empty());
        empty
    }
}

impl Clone for SendLines {
    fn clone(&self) -> (copy: SendLines)
        ensures
            copy@ == self@,
    {
        let copy = SendLines { lines: self.lines.clone(), flag: self.flag };
        assert(copy@.lines =~= self@.lines);
        copy
    }
}

/// The address of a connection's other end, as text: an IP, ':' and a port.
#[derive(Debug)]
pub struct Peer(pub String);

/// The part of `address` before its first ':', where it has one.
pub open spec fn ip_of(address: Seq<char>) -> Option<Seq<char>> {
    if address.contains(':') {
        Some(address.take(first_index_of(address, ':')))
    } else {
        None
    }
}

impl Peer {
    /// The IP of the peer: what stands before the first ':' of the address.
    pub fn ip(&self) -> (ip: Result<&str, Error>)
        ensures
            match ip {
                Ok(ip) => ip_of(self.0@) == Some(ip@),
                Err(e) => e == Error::AddressResolution && ip_of(self.0@) is None,
            },
    {
        let address = self.0.as_str();
        let chars = chars_of(address);
        let at = find_char(&chars, ':');
        proof {
            lemma_first_index_of(address@, ':');
        }
        if at < chars.len() {
            Ok(address.substring_char(0, at))
        } else {
            Err(Error::AddressResolution)
        }
    }

    /// The address as text: the IP, a colon, and what stands behind the
    /// first colon. An address without a colon has no such text.
    pub fn to_string(&self) -> (text: Result<String, Error>)
        ensures
            match text {
                Ok(text) => self.0@.contains(':') && text@ == self.0@,
                Err(e) => e == Error::AddressResolution && !self.0@.contains(':'),
            },
    {
        let address = self.0.as_str();
        let chars = chars_of(address);
        let at = find_char(&chars, ':');
        proof {
            lemma_first_index_of(address@, ':');
        }
        if at < chars.len() {
            let mut text = String::from_str(address.substring_char(0, at));
            text.append(":");
            text.append(address.substring_char(at + 1, chars.len()));
            proof {
                reveal_strlit(":");
                assert(text@ =~= address@);
            }
            Ok(text)
        } else {
            Err(Error::AddressResolution)
        }
    }
}

} // verus!
