//! The client's side of the routing: how many nodes it knows of, to which
//! node a command goes, and what it makes of a node's answer.

use crate::command::{parse, parse_command, request_key, CommandError, Request};
use crate::decimal::{parse_decimal, parse_u64};
use crate::partition::{owner, owner_index};
use crate::ports::{command_port, valid_node_id};
use crate::reply::{
    lemma_found_is_read, not_found_text, parse_reply, read_reply, reply_text, Reply, ReplyError,
};
use crate::store::{latest, lemma_decided_shadows, KeyValue, LogEntry};
use crate::text::{chars_of, trim_bounds, trimmed};
use crate::wire::{
    frame_text, lemma_text_round_trip, read_number, read_text, text_frame, unframe_number,
    unframe_text,
};
use vstd::prelude::*;
use vstd::string::*;
use vstd::utf8::{encode_utf8, is_ascii_chars, is_ascii_chars_encode_utf8};

verus! {

/// Why a peer report changes nothing.
#[derive(Clone, Copy, Debug, PartialEq, Eq, Structural)]
pub enum ReportError {
    /// The payload is no framed number.
    Undecodable,
    /// The number of peers is so large that the number of nodes is no 64-bit
    /// number.
    TooManyPeers,
}

/// Why a line is not sent to any node.
#[derive(Clone, Copy, Debug, PartialEq, Eq, Structural)]
pub enum DispatchError {
    /// The line is no command.
    Malformed(CommandError),
    /// The key is no unsigned 64-bit number, so it has no owner.
    KeyNotNumber,
    /// The owning node has no command port.
    NoPort,
}

/// Why a payload is no answer.
#[derive(Clone, Copy, Debug, PartialEq, Eq, Structural)]
pub enum AnswerError {
    /// The payload is no framed text.
    Undecodable,
    /// The text is no reply.
    Malformed(ReplyError),
}

/// Where a command goes, as a plain value.
pub struct Route {
    pub node: u64,
    pub port: u16,
    pub put: bool,
    pub payload: Seq<u8>,
}

/// A command on its way to the node that owns its key.
#[derive(Debug)]
pub struct Dispatch {
    /// The identifier of the owning node.
    pub node: u64,
    /// The command port of that node.
    pub port: u16,
    /// Whether the command is a `put`.
    pub put: bool,
    /// The command, framed as a text.
    pub payload: Vec<u8>,
}

/// The client's knowledge of the cluster: the number of nodes, which is 0
/// until a node has reported its peers.
#[derive(Clone, Copy, Debug, PartialEq, Eq, Structural)]
pub struct Client {
    pub nodes: u64,
}

/// The number of nodes that a report of `payload` makes known: one more than
/// the number of peers that it frames.
pub open spec fn reported_nodes(payload: Seq<u8>) -> Result<u64, ReportError> {
    match read_number(payload) {
        None => Err(ReportError::Undecodable),
        Some(peers) => if peers == u64::MAX {
            Err(ReportError::TooManyPeers)
        } else {
            Ok((peers + 1) as u64)
        },
    }
}

/// The identifier of the node that owns `key` among `nodes` nodes: nodes are
/// numbered from 1, in the order of their blocks of keys.
pub open spec fn owner_id(key: u64, nodes: u64) -> int {
    owner_index(key as int, nodes as int) + 1
}

/// The node that serves `key` among `nodes` nodes, with its command port; or
/// `None` when the owner's identifier is too large for it to have a port.
pub open spec fn target(key: u64, nodes: u64) -> Option<(u64, u16)> {
    let node = owner_id(key, nodes);
    if node > 1035 {
        None
    } else {
        Some((node as u64, (64500 + node) as u16))
    }
}

/// Where `line` goes in a cluster of `nodes` nodes. The line is trimmed and
/// read as a command; its key must be a number, whose owner is the target;
/// the payload is the trimmed line, framed as a text.
pub open spec fn routing(nodes: u64, line: Seq<char>) -> Result<Route, DispatchError> {
    let text = trimmed(line);
    match parse_command(text) {
        Err(error) => Err(DispatchError::Malformed(error)),
        Ok(request) => match parse_u64(trimmed(request_key(request))) {
            None => Err(DispatchError::KeyNotNumber),
            Some(key) => match target(key, nodes) {
                None => Err(DispatchError::NoPort),
                Some((node, port)) => Ok(
                    Route { node, port, put: request is Put, payload: text_frame(text) },
                ),
            },
        },
    }
}

/// What `payload` means as the answer to a `get`.
pub open spec fn answer_of(payload: Seq<u8>) -> Result<Option<(Seq<char>, u64)>, AnswerError> {
    match read_text(payload) {
        None => Err(AnswerError::Undecodable),
        Some(text) => match parse_reply(text) {
            Err(error) => Err(AnswerError::Malformed(error)),
            Ok(outcome) => Ok(outcome),
        },
    }
}

impl Dispatch {
    /// The dispatch as a plain value.
    pub open spec fn route(self) -> Route {
        Route { node: self.node, port: self.port, put: self.put, payload: self.payload@ }
    }
}

impl Client {
    /// A client that knows of no node yet.
    pub fn new() -> (client: Client)
        ensures
            client.nodes == 0,
    {
        Client { nodes: 0 }
    }

    /// Takes note of a node's report of its number of peers: the cluster has
    /// one node more than the node has peers. A payload that is no number, or
    /// too large a number, leaves the client as it was.
    pub fn peer_report(&mut self, payload: &[u8]) -> (result: Result<u64, ReportError>)
        ensures
            result == reported_nodes(payload@),
            final(self).nodes == match result {
                Ok(nodes) => nodes,
                Err(_) => old(self).nodes,
            },
    {
        match unframe_number(payload) {
            None => Err(ReportError::Undecodable),
            Some(peers) => {
                if peers == u64::MAX {
                    Err(ReportError::TooManyPeers)
                } else {
                    self.nodes = peers + 1;
                    Ok(peers + 1)
                }
            },
        }
    }

    /// Decides where `line` goes: to the command port of the node that owns
    /// its key, as the framed text of the trimmed line.
    pub fn dispatch(&self, line: &str) -> (result: Result<Dispatch, DispatchError>)
        ensures
            match result {
                Ok(dispatch) => routing(self.nodes, line@) == Ok::<Route, DispatchError>(
                    dispatch.route(),
                ),
                Err(error) => routing(self.nodes, line@) == Err::<Route, DispatchError>(error),
            },
    {
        let chars: Vec<char> = chars_of(line);
        let whole: (usize, usize) = trim_bounds(&chars, 0, chars.len());
        proof {
            assert(chars@.subrange(0, chars.len() as int) =~= chars@);
        }
        let text: &str = line.substring_char(whole.0, whole.1);
        assert(text@ == trimmed(line@));
        let command = match parse(text) {
            Err(error) => {
                return Err(DispatchError::Malformed(error));
            },
            Ok(command) => command,
        };
        let key: u64 = match key_number(command.key()) {
            None => {
                return Err(DispatchError::KeyNotNumber);
            },
            Some(key) => key,
        };
        match node_for(key, self.nodes) {
            None => Err(DispatchError::NoPort),
            Some((node, port)) => Ok(
                Dispatch { node, port, put: command.is_put(), payload: frame_text(text) },
            ),
        }
    }
}

/// The number that `key` is, if it is one; whitespace around it is passed
/// over.
pub fn key_number(key: &String) -> (number: Option<u64>)
    ensures
        number == parse_u64(trimmed(key@)),
{
    let chars: Vec<char> = chars_of(key.as_str());
    let inner: (usize, usize) = trim_bounds(&chars, 0, chars.len());
    proof {
        assert(chars@.subrange(0, chars.len() as int) =~= chars@);
    }
    parse_decimal(&chars, inner.0, inner.1)
}

/// The identifier and the command port of the node that owns `key` among
/// `nodes` nodes, or `None` when that node can have no port.
pub fn node_for(key: u64, nodes: u64) -> (found: Option<(u64, u16)>)
    ensures
        found == target(key, nodes),
        found matches Some((node, port)) ==> valid_node_id(node) && port == 64500 + node && (nodes
            >= 1 ==> node <= nodes),
{
    let index: u64 = owner(key, nodes);
    if index >= 1035 {
        return None;
    }
    let node: u64 = index + 1;
    match command_port(node) {
        None => None,
        Some(port) => Some((node, port)),
    }
}

/// Reads the payload that a node sent in answer to a `get`.
pub fn read_answer(payload: &[u8]) -> (result: Result<Reply, AnswerError>)
    ensures
        match result {
            Ok(reply) => answer_of(payload@) == Ok::<Option<(Seq<char>, u64)>, AnswerError>(
                reply.outcome(),
            ),
            Err(error) => answer_of(payload@) == Err::<Option<(Seq<char>, u64)>, AnswerError>(
                error,
            ),
        },
        result matches Ok(Reply::NotFound) <==> read_text(payload@) == Some(not_found_text()),
{
    let text: String = match unframe_text(payload) {
        Some(text) => text,
        None => {
            return Err(AnswerError::Undecodable);
        },
    };
    match read_reply(text.as_str()) {
        Err(error) => Err(AnswerError::Malformed(error)),
        Ok(reply) => Ok(reply),
    }
}

/// Routing is a function of the line and the number of nodes alone, and the
/// target is always a node of the cluster: with `nodes` nodes known, the
/// target's identifier is between 1 and `nodes`.
pub proof fn lemma_route_targets_cluster(nodes: u64, line: Seq<char>)
    requires
        nodes >= 1,
        routing(nodes, line) is Ok,
    ensures
        1 <= routing(nodes, line)->Ok_0.node <= nodes,
        valid_node_id(routing(nodes, line)->Ok_0.node),
        routing(nodes, line)->Ok_0.port == 64500 + routing(nodes, line)->Ok_0.node,
{
}

/// Two parties that know the same number of nodes send the same key to the
/// same node, and so they do with two keys of the same block of five.
pub proof fn lemma_same_key_same_owner(nodes: u64, key: u64, other: u64)
    ensures
        key == other ==> owner_id(key, nodes) == owner_id(other, nodes),
        key / 5 == other / 5 ==> owner_id(key, nodes) == owner_id(other, nodes),
{
}

/// The text `not found` takes nine bytes.
proof fn lemma_sentinel_is_short()
    ensures
        encode_utf8(not_found_text()).len() == 9,
{
    assert(is_ascii_chars(not_found_text()));
    is_ascii_chars_encode_utf8(not_found_text());
}

/// From a decided `put` to the client's reading of a `get`: once `pair` is
/// the newest decided entry of a node's log, the payload with which the node
/// answers a `get` of its key is read by the client as that key with that
/// value, whatever was decided before and whatever the key is, provided it
/// holds no space.
pub proof fn lemma_decided_put_is_answered(log: Seq<LogEntry>, pair: KeyValue)
    requires
        !pair.key@.contains(' '),
        encode_utf8(reply_text(pair.key@, Some(pair.value))).len() <= u64::MAX,
    ensures
        latest(log.push(LogEntry::Decided(pair)), pair.key@) == Some(pair.value),
        answer_of(
            text_frame(
                reply_text(pair.key@, latest(log.push(LogEntry::Decided(pair)), pair.key@)),
            ),
        ) == Ok::<Option<(Seq<char>, u64)>, AnswerError>(Some((pair.key@, pair.value))),
{
    lemma_decided_shadows(log, pair);
    let text = reply_text(pair.key@, Some(pair.value));
    lemma_found_is_read(pair.key@, pair.value);
    lemma_text_round_trip(text, Seq::empty());
    assert(text_frame(text) + Seq::<u8>::empty() =~= text_frame(text));
}

/// A key that no decided entry binds is answered, and the client reads the
/// answer as absence: never as an error, never as a value.
pub proof fn lemma_absent_key_is_answered(log: Seq<LogEntry>, key: Seq<char>)
    requires
        latest(log, key) is None,
    ensures
        answer_of(text_frame(reply_text(key, latest(log, key)))) == Ok::<
            Option<(Seq<char>, u64)>,
            AnswerError,
        >(None),
{
    let text = not_found_text();
    lemma_sentinel_is_short();
    lemma_text_round_trip(text, Seq::empty());
    assert(text_frame(text) + Seq::<u8>::empty() =~= text_frame(text));
}

/// The client reads absence only from the answer for an absent key: the
/// payload that answers a bound key is never read as absence.
pub proof fn lemma_bound_key_is_never_absent(key: Seq<char>, value: u64)
    requires
        encode_utf8(reply_text(key, Some(value))).len() <= u64::MAX,
    ensures
        answer_of(text_frame(reply_text(key, Some(value)))) != Ok::<
            Option<(Seq<char>, u64)>,
            AnswerError,
        >(None),
{
    let text = reply_text(key, Some(value));
    crate::reply::lemma_found_is_not_sentinel(key, value);
    lemma_text_round_trip(text, Seq::empty());
    assert(text_frame(text) + Seq::<u8>::empty() =~= text_frame(text));
}

} // verus!
