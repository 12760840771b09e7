//! A node's own bookkeeping around the two engines: its configuration, its
//! view of who leads, and what it makes of a client's command.
//!
//! The node owns no log and runs no protocol. It validates what it was
//! started with, says how the engines are to be set up, follows the leader
//! that the election announces, and turns a command payload into the one call
//! that the replication engine has to serve.

use crate::ballot::{ballot_above, Ballot};
use crate::command::{
    lemma_put_is_parsed, parse, parse_command, put_text, Command, CommandError, Request,
};
use crate::ports::{is_valid_node_id, valid_node_id};
use crate::reply::{render_reply, reply_text};
use crate::store::{latest, lookup, LogEntry};
use crate::wire::{
    frame_number, frame_text, lemma_text_round_trip, number_frame, read_text, text_frame,
    unframe_text,
};
use vstd::prelude::*;
use vstd::utf8::encode_utf8;

verus! {

/// Number of election ticks between two heartbeat rounds.
pub const HEARTBEAT_DELAY: u64 = 20;

/// Milliseconds between two ticks of the election engine.
pub const ELECTION_TICK_MILLIS: u64 = 20;

/// Milliseconds between two flushes of the engines' outgoing messages.
pub const FLUSH_MILLIS: u64 = 1;

/// Why a node cannot start with the identifiers it was given.
#[derive(Clone, Copy, Debug, PartialEq, Eq, Structural)]
pub enum ConfigError {
    /// The node's own identifier is not valid.
    InvalidNodeId,
    /// The identifier of a peer is not valid.
    InvalidPeer,
    /// The node's own identifier is listed among its peers.
    SelfAmongPeers,
    /// A peer is listed twice.
    DuplicatePeer,
}

/// Why a node does not serve a command payload.
#[derive(Clone, Copy, Debug, PartialEq, Eq, Structural)]
pub enum NodeError {
    /// The payload is no framed text.
    Undecodable,
    /// The text is no command.
    Malformed(CommandError),
    /// The command is a `put`, and this node does not lead.
    NotLeader,
}

/// How the election engine of a node is to be set up.
#[derive(Debug)]
pub struct ElectionSettings {
    pub pid: u64,
    pub peers: Vec<u64>,
    pub heartbeat_delay: u64,
}

/// How the replication engine of a node is to be set up.
#[derive(Debug)]
pub struct ReplicationSettings {
    pub configuration_id: u32,
    pub pid: u64,
    pub peers: Vec<u64>,
}

/// A node as a plain value.
pub struct NodeView {
    pub pid: u64,
    pub peers: Seq<u64>,
    pub leader: Option<Ballot>,
}

/// A node of the cluster: its identifier, its peers, and the leader it
/// currently believes in.
#[derive(Debug)]
pub struct Node {
    pid: u64,
    peers: Vec<u64>,
    leader: Option<Ballot>,
}

/// The first fault of a configuration, if it has one: the node's identifier
/// is checked first, then the peers' identifiers, then that the node is not
/// its own peer, then that no peer is listed twice.
pub open spec fn config_fault(pid: u64, peers: Seq<u64>) -> Option<ConfigError> {
    if !valid_node_id(pid) {
        Some(ConfigError::InvalidNodeId)
    } else if exists|i: int| 0 <= i < peers.len() && !valid_node_id(#[trigger] peers[i]) {
        Some(ConfigError::InvalidPeer)
    } else if peers.contains(pid) {
        Some(ConfigError::SelfAmongPeers)
    } else if !peers.no_duplicates() {
        Some(ConfigError::DuplicatePeer)
    } else {
        None
    }
}

impl NodeView {
    /// The node believes that it leads under `ballot`.
    pub open spec fn leads_under(self, ballot: Ballot) -> bool {
        self.leader == Some(ballot) && ballot.pid == self.pid
    }

    /// The node believes that it is the leader.
    pub open spec fn leads(self) -> bool {
        self.leader is Some && self.leader->0.pid == self.pid
    }

    /// The node follows an announced `ballot`: it believes in no leader yet,
    /// or the announced ballot defeats the one it believes in.
    pub open spec fn follows(self, ballot: Ballot) -> bool {
        self.leader is None || ballot_above(ballot, self.leader->0)
    }

    /// The node after `ballot` was announced to it: it believes in `ballot`
    /// when it follows it, and is unchanged when it does not.
    pub open spec fn after_election(self, ballot: Ballot) -> NodeView {
        if self.follows(ballot) {
            NodeView { pid: self.pid, peers: self.peers, leader: Some(ballot) }
        } else {
            self
        }
    }
}

/// What a node makes of a command payload: the request to serve, or why it
/// serves none. A `put` is served by the leader only.
pub open spec fn node_decision(leads: bool, payload: Seq<u8>) -> Result<Request, NodeError> {
    match read_text(payload) {
        None => Err(NodeError::Undecodable),
        Some(text) => match parse_command(text) {
            Err(error) => Err(NodeError::Malformed(error)),
            Ok(request) => if request is Put && !leads {
                Err(NodeError::NotLeader)
            } else {
                Ok(request)
            },
        },
    }
}

/// A copy of a list of identifiers.
fn copy_ids(ids: &Vec<u64>) -> (copy: Vec<u64>)
    ensures
        copy@ == ids@,
{
    let mut copy: Vec<u64> = Vec::new();
    let mut i: usize = 0;
    while i < ids.len()
        invariant
            i <= ids.len(),
            copy@ == ids@.take(i as int),
        decreases ids.len() - i,
    {
        copy.push(ids[i]);
        i = i + 1;
        proof {
            assert(ids@.take(i as int) =~= ids@.take(i - 1).push(ids[i - 1]));
        }
    }
    proof {
        assert(ids@.take(ids.len() as int) =~= ids@);
    }
    copy
}

/// Tells whether every identifier in `ids` is valid.
fn all_valid(ids: &Vec<u64>) -> (valid: bool)
    ensures
        valid == forall|i: int| 0 <= i < ids.len() ==> valid_node_id(#[trigger] ids[i]),
{
    let mut i: usize = 0;
    while i < ids.len()
        invariant
            i <= ids.len(),
            forall|k: int| 0 <= k < i ==> valid_node_id(#[trigger] ids[k]),
        decreases ids.len() - i,
    {
        if !is_valid_node_id(ids[i]) {
            return false;
        }
        i = i + 1;
    }
    true
}

/// Tells whether `id` occurs in `ids` before position `end`.
fn occurs_before(ids: &Vec<u64>, end: usize, id: u64) -> (found: bool)
    requires
        end <= ids.len(),
    ensures
        found == exists|k: int| 0 <= k < end && ids[k] == id,
{
    let mut i: usize = 0;
    while i < end
        invariant
            i <= end <= ids.len(),
            forall|k: int| 0 <= k < i ==> ids[k] != id,
        decreases end - i,
    {
        if ids[i] == id {
            return true;
        }
        i = i + 1;
    }
    false
}

/// Tells whether no identifier occurs twice in `ids`.
fn all_distinct(ids: &Vec<u64>) -> (distinct: bool)
    ensures
        distinct == ids@.no_duplicates(),
{
    let mut i: usize = 0;
    while i < ids.len()
        invariant
            i <= ids.len(),
            forall|a: int, b: int| 0 <= a < b < i ==> ids[a] != ids[b],
        decreases ids.len() - i,
    {
        if occurs_before(ids, i, ids[i]) {
            proof {
                let k = choose|k: int| 0 <= k < i && ids[k] == ids[i as int];
                assert(ids@[k] == ids@[i as int] && k != i);
            }
            return false;
        }
        i = i + 1;
    }
    true
}

impl Node {
    /// The node as a plain value.
    pub closed spec fn view(&self) -> NodeView {
        NodeView { pid: self.pid, peers: self.peers@, leader: self.leader }
    }

    #[verifier::type_invariant]
    spec fn well_formed(&self) -> bool {
        config_fault(self.pid, self.peers@) is None
    }

    /// A node with identifier `pid` and the given peers, which believes in no
    /// leader yet; or the first fault of this configuration.
    pub fn new(pid: u64, peers: Vec<u64>) -> (result: Result<Node, ConfigError>)
        ensures
            match result {
                Ok(node) => config_fault(pid, peers@) is None && node@ == (NodeView {
                    pid,
                    peers: peers@,
                    leader: None,
                }),
                Err(error) => config_fault(pid, peers@) == Some(error),
            },
    {
        if !is_valid_node_id(pid) {
            return Err(ConfigError::InvalidNodeId);
        }
        if !all_valid(&peers) {
            return Err(ConfigError::InvalidPeer);
        }
        if occurs_before(&peers, peers.len(), pid) {
            proof {
                let k = choose|k: int| 0 <= k < peers.len() && peers[k] == pid;
                assert(peers@[k] == pid);
            }
            return Err(ConfigError::SelfAmongPeers);
        }
        if !all_distinct(&peers) {
            return Err(ConfigError::DuplicatePeer);
        }
        Ok(Node { pid, peers, leader: None })
    }

    /// The node's identifier.
    pub fn pid(&self) -> (pid: u64)
        ensures
            pid == self@.pid,
            config_fault(self@.pid, self@.peers) is None,
    {
        proof {
            use_type_invariant(self);
        }
        self.pid
    }

    /// The identifiers of the node's peers.
    pub fn peers(&self) -> (peers: Vec<u64>)
        ensures
            peers@ == self@.peers,
    {
        copy_ids(&self.peers)
    }

    /// The ballot of the leader that the node believes in, if any.
    pub fn leader(&self) -> (leader: Option<Ballot>)
        ensures
            leader == self@.leader,
    {
        self.leader
    }

    /// Tells whether the node believes that it is the leader.
    pub fn is_leader(&self) -> (leads: bool)
        ensures
            leads == self@.leads(),
    {
        match self.leader {
            Some(ballot) => ballot.pid == self.pid,
            None => false,
        }
    }

    /// What the node tells the client at startup: the number of its peers,
    /// framed as a number.
    pub fn peer_report(&self) -> (payload: Vec<u8>)
        ensures
            payload@ == number_frame(self@.peers.len() as u64),
    {
        frame_number(self.peers.len() as u64)
    }

    /// The setup of the node's election engine.
    pub fn election_settings(&self) -> (settings: ElectionSettings)
        ensures
            settings.pid == self@.pid,
            settings.peers@ == self@.peers,
            settings.heartbeat_delay == HEARTBEAT_DELAY,
    {
        ElectionSettings {
            pid: self.pid,
            peers: copy_ids(&self.peers),
            heartbeat_delay: HEARTBEAT_DELAY,
        }
    }

    /// The setup of the node's replication engine. The configuration is
    /// numbered by the node's identifier.
    pub fn replication_settings(&self) -> (settings: ReplicationSettings)
        ensures
            settings.configuration_id == self@.pid,
            settings.pid == self@.pid,
            settings.peers@ == self@.peers,
    {
        proof {
            use_type_invariant(self);
        }
        ReplicationSettings {
            configuration_id: self.pid as u32,
            pid: self.pid,
            peers: copy_ids(&self.peers),
        }
    }

    /// Takes note of a leader that the election announces. The node follows
    /// the announced ballot when it believes in none yet or the announced one
    /// defeats the one it believes in; otherwise its belief stays. The result
    /// tells whether the node follows.
    pub fn leader_elected(&mut self, ballot: Ballot) -> (adopted: bool)
        ensures
            adopted == old(self)@.follows(ballot),
            final(self)@ == old(self)@.after_election(ballot),
    {
        proof {
            use_type_invariant(&*self);
        }
        let adopted: bool = match self.leader {
            Some(current) => ballot.defeats(&current),
            None => true,
        };
        if adopted {
            self.leader = Some(ballot);
        }
        adopted
    }

    /// What the node makes of a command payload. A `get` is always served; a
    /// `put` is served when the node believes that it leads, and refused with
    /// `NotLeader` otherwise, so that no write is lost in silence.
    pub fn handle_command(&self, payload: &[u8]) -> (result: Result<Command, NodeError>)
        ensures
            match result {
                Ok(command) => node_decision(self@.leads(), payload@) == Ok::<Request, NodeError>(
                    command.request(),
                ),
                Err(error) => node_decision(self@.leads(), payload@) == Err::<Request, NodeError>(
                    error,
                ),
            },
    {
        let text: String = match unframe_text(payload) {
            Some(text) => text,
            None => {
                return Err(NodeError::Undecodable);
            },
        };
        match parse(text.as_str()) {
            Err(error) => Err(NodeError::Malformed(error)),
            Ok(command) => {
                if command.is_put() && !self.is_leader() {
                    Err(NodeError::NotLeader)
                } else {
                    Ok(command)
                }
            },
        }
    }
}

/// What `decided` holds for `key`: the latest decided value, or nothing when
/// there are no decided entries at all.
pub open spec fn read_of(decided: Option<Vec<LogEntry>>, key: Seq<char>) -> Option<u64> {
    match decided {
        Some(log) => latest(log@, key),
        None => None,
    }
}

/// The payload with which a node answers a `get` for `key`, given the decided
/// entries that the replication engine read: the framed text of the key with
/// its latest decided value, or of `not found`.
pub fn answer_get(key: &String, decided: &Option<Vec<LogEntry>>) -> (payload: Vec<u8>)
    ensures
        payload@ == text_frame(reply_text(key@, read_of(*decided, key@))),
{
    let found: Option<u64> = match decided {
        Some(log) => lookup(log, key),
        None => None,
    };
    let text: String = render_reply(key, found);
    frame_text(text.as_str())
}

/// For one ballot at most one node believes that it leads: the ballot names
/// its leader, and no two nodes share an identifier.
pub proof fn lemma_one_leader_per_ballot(first: NodeView, second: NodeView, ballot: Ballot)
    requires
        first.pid != second.pid,
    ensures
        !(first.leads_under(ballot) && second.leads_under(ballot)),
{
}

/// A node that believes that it leads does so under the ballot it believes
/// in, and under no other.
pub proof fn lemma_leads_under_own_ballot(node: NodeView, ballot: Ballot)
    ensures
        node.leads_under(ballot) <==> node.leads() && node.leader == Some(ballot),
{
}

/// The ballot that a node believes in never goes down, and the node's
/// identifier and peers never change, whatever is announced.
pub proof fn lemma_belief_never_goes_down(node: NodeView, ballot: Ballot)
    ensures
        node.after_election(ballot).pid == node.pid,
        node.after_election(ballot).peers == node.peers,
        node.after_election(ballot).leader is Some,
        node.leader is Some ==> !ballot_above(
            node.leader->0,
            node.after_election(ballot).leader->0,
        ),
        !ballot_above(ballot, node.after_election(ballot).leader->0),
{
}

/// Takeover: a node that follows an announced ballot which names the node
/// itself believes that it leads from then on, and serves a `put` that is
/// written in the usual way.
pub proof fn lemma_elected_node_serves_put(
    node: NodeView,
    ballot: Ballot,
    key: Seq<char>,
    value: u64,
)
    requires
        ballot.pid == node.pid,
        node.follows(ballot),
        !key.contains(' '),
        encode_utf8(put_text(key, value)).len() <= u64::MAX,
    ensures
        node.after_election(ballot).leads(),
        node_decision(node.after_election(ballot).leads(), text_frame(put_text(key, value))) == Ok::<
            Request,
            NodeError,
        >(Request::Put { key, value }),
{
    lemma_put_is_parsed(key, value);
    lemma_text_round_trip(put_text(key, value), Seq::empty());
    assert(text_frame(put_text(key, value)) + Seq::<u8>::empty() =~= text_frame(
        put_text(key, value),
    ));
}

/// Stepping down: a node that follows an announced ballot which names
/// another node does not believe that it leads any more, and refuses every
/// `put` with `NotLeader`.
pub proof fn lemma_deposed_node_refuses_put(
    node: NodeView,
    ballot: Ballot,
    key: Seq<char>,
    value: u64,
)
    requires
        ballot.pid != node.pid,
        node.follows(ballot),
        !key.contains(' '),
        encode_utf8(put_text(key, value)).len() <= u64::MAX,
    ensures
        !node.after_election(ballot).leads(),
        node_decision(node.after_election(ballot).leads(), text_frame(put_text(key, value)))
            == Err::<Request, NodeError>(NodeError::NotLeader),
{
    lemma_put_is_parsed(key, value);
    lemma_text_round_trip(put_text(key, value), Seq::empty());
    assert(text_frame(put_text(key, value)) + Seq::<u8>::empty() =~= text_frame(
        put_text(key, value),
    ));
}

} // verus!
