//! The handshake a replica performs with its master: PING, then
//! `REPLCONF listening-port <port>`, then `REPLCONF capa psync2`, each
//! answered before the next is sent. The caller sends each message and
//! feeds back the decoded reply.

use vstd::prelude::*;
use crate::resp::{array_spec, to_bulk_array, RespRequest};
use crate::text::{ascii_upper, chars_of, eq_upper, text_of};

verus! {

/// Where a handshake stands.
#[derive(Debug, Clone, Copy, PartialEq, Eq, Structural)]
pub enum HandshakeStep {
    /// PING is to be sent.
    Ping,
    /// `REPLCONF listening-port` is to be sent.
    ListeningPort,
    /// `REPLCONF capa psync2` is to be sent.
    Capa,
    /// Every step was acknowledged.
    Done,
    /// A reply was not the one expected; nothing more is sent.
    Aborted,
}

/// The message to send at a step, as an array of bulk strings.
pub open spec fn message_spec(step: HandshakeStep, port: Seq<char>) -> Option<Seq<char>> {
    match step {
        HandshakeStep::Ping => Some(array_spec(seq!["PING"@])),
        HandshakeStep::ListeningPort => Some(
            array_spec(seq!["REPLCONF"@, "listening-port"@, port]),
        ),
        HandshakeStep::Capa => Some(array_spec(seq!["REPLCONF"@, "capa"@, "psync2"@])),
        _ => None,
    }
}

/// The step after a reply: PING wants a first element reading `PONG` in any
/// ASCII case, each REPLCONF a first element reading exactly `OK`; any other
/// reply aborts. A finished or aborted handshake stays as it is.
pub open spec fn next_spec(step: HandshakeStep, reply: Seq<Seq<char>>) -> HandshakeStep {
    match step {
        HandshakeStep::Ping => if reply.len() > 0 && ascii_upper(reply[0]) == "PONG"@ {
            HandshakeStep::ListeningPort
        } else {
            HandshakeStep::Aborted
        },
        HandshakeStep::ListeningPort => if reply.len() > 0 && reply[0] == "OK"@ {
            HandshakeStep::Capa
        } else {
            HandshakeStep::Aborted
        },
        HandshakeStep::Capa => if reply.len() > 0 && reply[0] == "OK"@ {
            HandshakeStep::Done
        } else {
            HandshakeStep::Aborted
        },
        _ => step,
    }
}

/// The texts of a reply's elements.
pub open spec fn reply_texts(reply: &RespRequest) -> Seq<Seq<char>> {
    reply@.1.map_values(|e: (Seq<char>, crate::resp::ContentType)| e.0)
}

/// The message to send at `step`; `None` once the handshake has ended.
/// `port` is the port this server listens on.
pub fn handshake_message(step: HandshakeStep, port: &String) -> (r: Option<String>)
    ensures
        match r {
            Some(m) => message_spec(step, port@) == Some(m@),
            None => message_spec(step, port@) is None,
        },
{
    let mut items: Vec<String> = Vec::new();
    match step {
        HandshakeStep::Ping => {
            items.push(text_of("PING"));
        },
        HandshakeStep::ListeningPort => {
            items.push(text_of("REPLCONF"));
            items.push(text_of("listening-port"));
            items.push(text_of(port.as_str()));
        },
        HandshakeStep::Capa => {
            items.push(text_of("REPLCONF"));
            items.push(text_of("capa"));
            items.push(text_of("psync2"));
        },
        _ => {
            return None;
        },
    }
    let m = to_bulk_array(&items);
    proof {
        let v = items@.map_values(|s: String| s@);
        match step {
            HandshakeStep::Ping => {
                assert(v =~= seq!["PING"@]);
            },
            HandshakeStep::ListeningPort => {
                assert(v =~= seq!["REPLCONF"@, "listening-port"@, port@]);
            },
            _ => {
                assert(v =~= seq!["REPLCONF"@, "capa"@, "psync2"@]);
            },
        }
    }
    Some(m)
}

/// The step that follows `step` once `reply` has come back.
pub fn handshake_next(step: HandshakeStep, reply: &RespRequest) -> (r: HandshakeStep)
    ensures
        r == next_spec(step, reply_texts(reply)),
{
    let ghost texts = reply_texts(reply);
    if step == HandshakeStep::Done || step == HandshakeStep::Aborted {
        return step;
    }
    if reply.arguments.len() == 0 {
        return HandshakeStep::Aborted;
    }
    assert(texts[0] == reply.arguments@[0].content@);
    let first = &reply.arguments[0].content;
    if step == HandshakeStep::Ping {
        let pong = chars_of("PONG");
        proof {
            reveal_strlit("PONG");
        }
        let word = chars_of(first.as_str());
        if eq_upper(word.as_slice(), pong.as_slice()) {
            HandshakeStep::ListeningPort
        } else {
            HandshakeStep::Aborted
        }
    } else {
        let ok = text_of("OK");
        if *first == ok {
            if step == HandshakeStep::ListeningPort {
                HandshakeStep::Capa
            } else {
                HandshakeStep::Done
            }
        } else {
            HandshakeStep::Aborted
        }
    }
}

} // verus!
