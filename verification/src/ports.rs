//! The well-known ports of the cluster. Every node listens on three ports that
//! are derived from its identifier; the client listens on two fixed ones.

use vstd::prelude::*;

verus! {

/// Base of the ports on which nodes receive replication traffic.
pub const REPLICATION_BASE: u16 = 50000;

/// Base of the ports on which nodes receive election traffic.
pub const ELECTION_BASE: u16 = 60000;

/// Base of the ports on which nodes receive client commands.
pub const COMMAND_BASE: u16 = 64500;

/// The port on which the client learns how many peers a node has.
pub const CLIENT_PEER_REPORT_PORT: u16 = 64000;

/// The port on which the client receives the answer to a `get`.
pub const CLIENT_RESULT_PORT: u16 = 64500;

/// The largest node identifier whose command port still is a 16-bit port.
pub const MAX_NODE_ID: u64 = 1035;

/// The three kinds of traffic that a node receives, each on a port of its own.
#[derive(Clone, Copy, Debug, PartialEq, Eq, Structural)]
pub enum Traffic {
    Replication,
    Election,
    Command,
}

/// A node identifier is a positive integer, small enough for all three of the
/// node's ports to exist.
pub open spec fn valid_node_id(node: u64) -> bool {
    1 <= node <= MAX_NODE_ID
}

/// The first port of the range that `traffic` uses.
pub open spec fn port_base(traffic: Traffic) -> int {
    match traffic {
        Traffic::Replication => 50000,
        Traffic::Election => 60000,
        Traffic::Command => 64500,
    }
}

/// The port on which node `node` receives `traffic`.
pub open spec fn port_of(traffic: Traffic, node: u64) -> int {
    port_base(traffic) + node
}

/// Tells whether `node` can be the identifier of a node.
pub fn is_valid_node_id(node: u64) -> (valid: bool)
    ensures
        valid == valid_node_id(node),
{
    1 <= node && node <= MAX_NODE_ID
}

/// The port on which node `node` receives `traffic`, or `None` when `node`
/// is no valid node identifier.
pub fn node_port(traffic: Traffic, node: u64) -> (port: Option<u16>)
    ensures
        port is Some <==> valid_node_id(node),
        port is Some ==> port->0 == port_of(traffic, node),
{
    if !is_valid_node_id(node) {
        return None;
    }
    let offset: u16 = node as u16;
    let base: u16 = match traffic {
        Traffic::Replication => REPLICATION_BASE,
        Traffic::Election => ELECTION_BASE,
        Traffic::Command => COMMAND_BASE,
    };
    Some(base + offset)
}

/// The port on which node `node` receives replication messages.
pub fn replication_port(node: u64) -> (port: Option<u16>)
    ensures
        port is Some <==> valid_node_id(node),
        port is Some ==> port->0 == 50000 + node,
{
    node_port(Traffic::Replication, node)
}

/// The port on which node `node` receives election messages.
pub fn election_port(node: u64) -> (port: Option<u16>)
    ensures
        port is Some <==> valid_node_id(node),
        port is Some ==> port->0 == 60000 + node,
{
    node_port(Traffic::Election, node)
}

/// The port on which node `node` receives client commands.
pub fn command_port(node: u64) -> (port: Option<u16>)
    ensures
        port is Some <==> valid_node_id(node),
        port is Some ==> port->0 == 64500 + node,
{
    node_port(Traffic::Command, node)
}

/// Two ports of valid nodes coincide only for the same traffic and the same
/// node: the three ranges are disjoint, so a message of one kind can never
/// arrive on the port of another.
pub proof fn lemma_ports_distinct(first: Traffic, a: u64, second: Traffic, b: u64)
    requires
        valid_node_id(a),
        valid_node_id(b),
    ensures
        port_of(first, a) == port_of(second, b) <==> first == second && a == b,
        50000 < port_of(first, a) <= 65535,
{
}

/// No node port is one of the two ports of the client.
pub proof fn lemma_ports_miss_client(traffic: Traffic, node: u64)
    requires
        valid_node_id(node),
    ensures
        port_of(traffic, node) != CLIENT_PEER_REPORT_PORT,
        port_of(traffic, node) != CLIENT_RESULT_PORT,
{
}

} // verus!
