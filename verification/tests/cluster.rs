use paxos_kv::ballot::Ballot;
use paxos_kv::client::{
    key_number, node_for, read_answer, AnswerError, Client, DispatchError, ReportError,
};
use paxos_kv::command::{Command, CommandError};
use paxos_kv::node::{
    answer_get, ConfigError, Node, NodeError, ELECTION_TICK_MILLIS, FLUSH_MILLIS, HEARTBEAT_DELAY,
};
use paxos_kv::reply::{Reply, ReplyError};
use paxos_kv::store::LogEntry;
use paxos_kv::KeyValue;

fn framed(text: &str) -> Vec<u8> {
    bincode::serialize(text).unwrap()
}

fn node(pid: u64, peers: &[u64]) -> Node {
    Node::new(pid, peers.to_vec()).unwrap()
}

fn found(payload: &[u8]) -> (String, u64) {
    match read_answer(payload) {
        Ok(Reply::Found(pair)) => (pair.key, pair.value),
        other => panic!("unexpected: {:?}", other),
    }
}

#[test]
fn node_starts_without_leader() {
    let n = node(1, &[2, 3]);
    assert_eq!(n.pid(), 1);
    assert_eq!(n.peers(), vec![2, 3]);
    assert_eq!(n.leader(), None);
    assert!(!n.is_leader());
}

#[test]
fn node_without_peers_is_valid() {
    let n = node(5, &[]);
    assert_eq!(n.peers(), Vec::<u64>::new());
    assert_eq!(n.peer_report(), vec![0u8; 8]);
}

#[test]
fn invalid_pid_is_refused() {
    assert_eq!(Node::new(0, vec![1, 2]).err(), Some(ConfigError::InvalidNodeId));
    assert_eq!(Node::new(1036, vec![1, 2]).err(), Some(ConfigError::InvalidNodeId));
    assert_eq!(Node::new(0, vec![0, 0]).err(), Some(ConfigError::InvalidNodeId));
}

#[test]
fn invalid_peer_is_refused() {
    assert_eq!(Node::new(1, vec![2, 0]).err(), Some(ConfigError::InvalidPeer));
    assert_eq!(Node::new(1, vec![5000]).err(), Some(ConfigError::InvalidPeer));
    assert_eq!(Node::new(1, vec![1, 0]).err(), Some(ConfigError::InvalidPeer));
}

#[test]
fn self_among_peers_is_refused() {
    assert_eq!(Node::new(2, vec![1, 2, 3]).err(), Some(ConfigError::SelfAmongPeers));
    assert_eq!(Node::new(2, vec![2, 2]).err(), Some(ConfigError::SelfAmongPeers));
}

#[test]
fn duplicate_peer_is_refused() {
    assert_eq!(Node::new(1, vec![2, 3, 2]).err(), Some(ConfigError::DuplicatePeer));
    assert_eq!(Node::new(1, vec![3, 3]).err(), Some(ConfigError::DuplicatePeer));
}

#[test]
fn engine_settings_follow_the_configuration() {
    let n = node(3, &[1, 2]);
    let election = n.election_settings();
    assert_eq!(election.pid, 3);
    assert_eq!(election.peers, vec![1, 2]);
    assert_eq!(election.heartbeat_delay, 20);
    let replication = n.replication_settings();
    assert_eq!(replication.configuration_id, 3);
    assert_eq!(replication.pid, 3);
    assert_eq!(replication.peers, vec![1, 2]);
}

#[test]
fn cadences_are_fixed() {
    assert_eq!(HEARTBEAT_DELAY, 20);
    assert_eq!(ELECTION_TICK_MILLIS, 20);
    assert_eq!(FLUSH_MILLIS, 1);
}

#[test]
fn peer_report_is_the_framed_peer_count() {
    let n = node(1, &[2, 3]);
    assert_eq!(n.peer_report(), vec![2, 0, 0, 0, 0, 0, 0, 0]);
    assert_eq!(n.peer_report(), bincode::serialize(&2u64).unwrap());
}

#[test]
fn first_announced_leader_is_followed() {
    let mut n = node(1, &[2, 3]);
    assert!(n.leader_elected(Ballot { round: 1, pid: 2 }));
    assert_eq!(n.leader(), Some(Ballot { round: 1, pid: 2 }));
    assert!(!n.is_leader());
}

#[test]
fn higher_ballot_replaces_the_leader() {
    let mut n = node(1, &[2, 3]);
    assert!(n.leader_elected(Ballot { round: 1, pid: 2 }));
    assert!(n.leader_elected(Ballot { round: 1, pid: 3 }));
    assert!(n.leader_elected(Ballot { round: 2, pid: 1 }));
    assert_eq!(n.leader(), Some(Ballot { round: 2, pid: 1 }));
    assert!(n.is_leader());
}

#[test]
fn lower_or_equal_ballot_changes_nothing() {
    let mut n = node(1, &[2, 3]);
    assert!(n.leader_elected(Ballot { round: 5, pid: 2 }));
    assert!(!n.leader_elected(Ballot { round: 4, pid: 3 }));
    assert!(!n.leader_elected(Ballot { round: 5, pid: 1 }));
    assert!(!n.leader_elected(Ballot { round: 5, pid: 2 }));
    assert_eq!(n.leader(), Some(Ballot { round: 5, pid: 2 }));
    assert_eq!(n.pid(), 1);
    assert_eq!(n.peers(), vec![2, 3]);
}

#[test]
fn at_most_one_node_leads_under_a_ballot() {
    let mut nodes = vec![node(1, &[2, 3]), node(2, &[1, 3]), node(3, &[1, 2])];
    for ballot in [
        Ballot { round: 1, pid: 3 },
        Ballot { round: 2, pid: 1 },
        Ballot { round: 2, pid: 2 },
    ] {
        for n in nodes.iter_mut() {
            n.leader_elected(ballot);
        }
        let leaders: Vec<u64> = nodes.iter().filter(|n| n.is_leader()).map(|n| n.pid()).collect();
        assert_eq!(leaders, vec![ballot.pid]);
    }
}

#[test]
fn leader_serves_put() {
    let mut n = node(1, &[2, 3]);
    n.leader_elected(Ballot { round: 1, pid: 1 });
    match n.handle_command(&framed("put a 7")) {
        Ok(Command::Put(pair)) => {
            assert_eq!(pair.key, "a");
            assert_eq!(pair.value, 7);
        }
        other => panic!("unexpected: {:?}", other),
    }
}

#[test]
fn follower_refuses_put() {
    let mut n = node(1, &[2, 3]);
    assert!(matches!(n.handle_command(&framed("put a 7")), Err(NodeError::NotLeader)));
    n.leader_elected(Ballot { round: 1, pid: 2 });
    assert!(matches!(n.handle_command(&framed("put a 7")), Err(NodeError::NotLeader)));
}

#[test]
fn every_node_serves_get() {
    let mut n = node(1, &[2, 3]);
    assert!(matches!(n.handle_command(&framed("get a")), Ok(Command::Get(key)) if key == "a"));
    n.leader_elected(Ballot { round: 1, pid: 2 });
    assert!(matches!(n.handle_command(&framed("get a")), Ok(Command::Get(key)) if key == "a"));
    n.leader_elected(Ballot { round: 2, pid: 1 });
    assert!(matches!(n.handle_command(&framed("get a")), Ok(Command::Get(key)) if key == "a"));
}

#[test]
fn undecodable_payload_fails_only_the_message() {
    let n = node(1, &[2, 3]);
    assert!(matches!(n.handle_command(&[]), Err(NodeError::Undecodable)));
    assert!(matches!(n.handle_command(&[1, 2, 3]), Err(NodeError::Undecodable)));
    assert!(matches!(
        n.handle_command(&[9, 0, 0, 0, 0, 0, 0, 0, b'g', b'e', b't']),
        Err(NodeError::Undecodable)
    ));
    assert!(matches!(
        n.handle_command(&[2, 0, 0, 0, 0, 0, 0, 0, 0xff, 0xfe]),
        Err(NodeError::Undecodable)
    ));
    assert!(matches!(n.handle_command(&framed("get a")), Ok(Command::Get(_))));
}

#[test]
fn malformed_command_is_reported() {
    let mut n = node(1, &[2, 3]);
    n.leader_elected(Ballot { round: 1, pid: 1 });
    assert!(matches!(
        n.handle_command(&framed("put a")),
        Err(NodeError::Malformed(CommandError::MissingValue))
    ));
    assert!(matches!(
        n.handle_command(&framed("put a x")),
        Err(NodeError::Malformed(CommandError::BadValue))
    ));
    assert!(matches!(
        n.handle_command(&framed("drop a")),
        Err(NodeError::Malformed(CommandError::UnknownVerb))
    ));
    assert!(matches!(
        n.handle_command(&framed("get")),
        Err(NodeError::Malformed(CommandError::MissingKey))
    ));
}

#[test]
fn malformed_put_at_follower_is_reported_as_malformed() {
    let n = node(1, &[2, 3]);
    assert!(matches!(
        n.handle_command(&framed("put a")),
        Err(NodeError::Malformed(CommandError::MissingValue))
    ));
}

#[test]
fn trailing_bytes_after_the_frame_are_ignored() {
    let n = node(1, &[2, 3]);
    let mut payload = framed("get a");
    payload.extend_from_slice(&[1, 1, 1, 1]);
    assert!(matches!(n.handle_command(&payload), Ok(Command::Get(key)) if key == "a"));
}

#[test]
fn answer_is_the_framed_reply() {
    let log = vec![
        LogEntry::Decided(KeyValue::new("a".to_string(), 1)),
        LogEntry::Decided(KeyValue::new("a".to_string(), 7)),
    ];
    assert_eq!(answer_get(&"a".to_string(), &Some(log)), framed("a 7"));
    assert_eq!(
        answer_get(&"a".to_string(), &Some(Vec::new())),
        framed("not found")
    );
    assert_eq!(answer_get(&"a".to_string(), &None), framed("not found"));
    assert_eq!(
        framed("a 7"),
        vec![3, 0, 0, 0, 0, 0, 0, 0, b'a', b' ', b'7']
    );
}

#[test]
fn answer_frames_longer_and_wider_texts() {
    let key = "k\u{e9}y".to_string();
    let log = vec![LogEntry::Decided(KeyValue::new(key.clone(), 300))];
    let payload = answer_get(&key, &Some(log));
    assert_eq!(payload, framed("k\u{e9}y 300"));
    assert_eq!(payload.len(), 8 + 8);
    assert_eq!(payload[0], 8);
    assert_eq!(found(&payload), (key, 300));
}

#[test]
fn client_starts_with_no_node() {
    let client = Client::new();
    assert_eq!(client.nodes, 0);
}

#[test]
fn peer_report_counts_the_reporter() {
    let mut client = Client::new();
    assert_eq!(client.peer_report(&bincode::serialize(&2u64).unwrap()), Ok(3));
    assert_eq!(client.nodes, 3);
    assert_eq!(client.peer_report(&[0, 1, 0, 0, 0, 0, 0, 0]), Ok(257));
    assert_eq!(client.nodes, 257);
    assert_eq!(client.peer_report(&[0; 8]), Ok(1));
    assert_eq!(client.nodes, 1);
}

#[test]
fn peer_report_reads_all_eight_bytes() {
    let mut client = Client::new();
    assert_eq!(
        client.peer_report(&[1, 2, 3, 4, 5, 6, 7, 8]),
        Ok(0x0807_0605_0403_0201 + 1)
    );
    assert_eq!(client.peer_report(&[0xfe, 0xff, 0xff, 0xff, 0xff, 0xff, 0xff, 0xff]), Ok(u64::MAX));
    assert_eq!(client.peer_report(&[5, 0, 0, 0, 0, 0, 0, 0, 9, 9]), Ok(6));
}

#[test]
fn bad_peer_report_changes_nothing() {
    let mut client = Client::new();
    assert_eq!(client.peer_report(&[2, 0, 0, 0, 0, 0, 0, 0]), Ok(3));
    assert_eq!(client.peer_report(&[]), Err(ReportError::Undecodable));
    assert_eq!(client.peer_report(&[1, 2, 3]), Err(ReportError::Undecodable));
    assert_eq!(client.peer_report(&[0xff; 8]), Err(ReportError::TooManyPeers));
    assert_eq!(client.nodes, 3);
}

#[test]
fn node_report_is_understood_by_client() {
    let n = node(1, &[2, 3]);
    let mut client = Client::new();
    assert_eq!(client.peer_report(&n.peer_report()), Ok(3));
}

#[test]
fn dispatch_goes_to_the_owner() {
    let client = Client { nodes: 3 };
    let first = client.dispatch("put 3 7\n").unwrap();
    assert_eq!(first.node, 1);
    assert_eq!(first.port, 64501);
    assert!(first.put);
    assert_eq!(first.payload, framed("put 3 7"));
    let second = client.dispatch("get 7\n").unwrap();
    assert_eq!(second.node, 2);
    assert_eq!(second.port, 64502);
    assert!(!second.put);
    assert_eq!(second.payload, framed("get 7"));
    let third = client.dispatch("get 1000").unwrap();
    assert_eq!(third.node, 3);
    assert_eq!(third.port, 64503);
}

#[test]
fn dispatch_before_any_report_goes_to_the_first_node() {
    let client = Client::new();
    let dispatch = client.dispatch("get 77\n").unwrap();
    assert_eq!(dispatch.node, 1);
    assert_eq!(dispatch.port, 64501);
}

#[test]
fn dispatch_trims_the_line() {
    let client = Client { nodes: 2 };
    let dispatch = client.dispatch("  put 9 1 \r\n").unwrap();
    assert_eq!(dispatch.payload, framed("put 9 1"));
    assert_eq!(dispatch.node, 2);
}

#[test]
fn dispatch_refuses_what_is_no_command() {
    let client = Client { nodes: 3 };
    assert_eq!(
        client.dispatch("put 3\n").err(),
        Some(DispatchError::Malformed(CommandError::MissingValue))
    );
    assert_eq!(
        client.dispatch("\n").err(),
        Some(DispatchError::Malformed(CommandError::UnknownVerb))
    );
    assert_eq!(
        client.dispatch("list\n").err(),
        Some(DispatchError::Malformed(CommandError::UnknownVerb))
    );
    assert_eq!(
        client.dispatch("get\n").err(),
        Some(DispatchError::Malformed(CommandError::MissingKey))
    );
    assert_eq!(
        client.dispatch("put 3 x\n").err(),
        Some(DispatchError::Malformed(CommandError::BadValue))
    );
    assert_eq!(
        client.dispatch("put 3 4 5\n").err(),
        Some(DispatchError::Malformed(CommandError::TooManyWords))
    );
}

#[test]
fn dispatch_refuses_a_key_that_is_no_number() {
    let client = Client { nodes: 3 };
    assert_eq!(client.dispatch("get a\n").err(), Some(DispatchError::KeyNotNumber));
    assert_eq!(client.dispatch("put a 7\n").err(), Some(DispatchError::KeyNotNumber));
    assert_eq!(client.dispatch("get -1\n").err(), Some(DispatchError::KeyNotNumber));
    assert_eq!(
        client.dispatch("get 18446744073709551616\n").err(),
        Some(DispatchError::KeyNotNumber)
    );
}

#[test]
fn dispatch_refuses_an_owner_without_port() {
    let client = Client { nodes: 5000 };
    assert_eq!(client.dispatch("get 5174\n").unwrap().node, 1035);
    assert_eq!(client.dispatch("get 5174\n").unwrap().port, 65535);
    assert_eq!(client.dispatch("get 5175\n").err(), Some(DispatchError::NoPort));
    assert_eq!(client.dispatch("get 999999\n").err(), Some(DispatchError::NoPort));
}

#[test]
fn answer_payloads_are_read() {
    assert_eq!(found(&framed("a 7")), ("a".to_string(), 7));
    assert!(matches!(read_answer(&framed("not found")), Ok(Reply::NotFound)));
    assert!(matches!(read_answer(&[]), Err(AnswerError::Undecodable)));
    assert!(matches!(read_answer(&[4, 0, 0, 0, 0, 0, 0, 0, b'a']), Err(AnswerError::Undecodable)));
    assert!(matches!(
        read_answer(&framed("a")),
        Err(AnswerError::Malformed(ReplyError::MissingValue))
    ));
    assert!(matches!(
        read_answer(&framed("a b")),
        Err(AnswerError::Malformed(ReplyError::BadValue))
    ));
}

fn serve(node: &Node, log: &mut Vec<LogEntry>, payload: &[u8]) -> Option<Vec<u8>> {
    match node.handle_command(payload).unwrap() {
        Command::Put(pair) => {
            log.push(LogEntry::Decided(pair));
            None
        }
        Command::Get(key) => {
            let decided = if log.is_empty() { None } else { Some(log.clone_entries()) };
            Some(answer_get(&key, &decided))
        }
    }
}

trait CloneEntries {
    fn clone_entries(&self) -> Vec<LogEntry>;
}

impl CloneEntries for Vec<LogEntry> {
    fn clone_entries(&self) -> Vec<LogEntry> {
        self.iter()
            .map(|entry| match entry {
                LogEntry::Decided(pair) => LogEntry::Decided(pair.clone()),
                LogEntry::Proposed(pair) => LogEntry::Proposed(pair.clone()),
            })
            .collect()
    }
}

#[test]
fn put_then_get_returns_the_latest_value() {
    let mut nodes = vec![node(1, &[2, 3]), node(2, &[1, 3]), node(3, &[1, 2])];
    let mut client = Client::new();
    for n in &nodes {
        assert_eq!(client.peer_report(&n.peer_report()), Ok(3));
    }
    for n in nodes.iter_mut() {
        n.leader_elected(Ballot { round: 1, pid: 1 });
    }
    let mut log: Vec<LogEntry> = Vec::new();

    assert!(serve(&nodes[0], &mut log, &framed("get a")) == Some(framed("not found")));
    assert!(serve(&nodes[0], &mut log, &framed("put a 7")).is_none());
    for n in &nodes {
        let answer = serve(n, &mut log, &framed("get a")).unwrap();
        assert_eq!(answer, framed("a 7"));
        assert_eq!(found(&answer), ("a".to_string(), 7));
    }
    assert!(serve(&nodes[0], &mut log, &framed("put a 9")).is_none());
    for n in &nodes {
        let answer = serve(n, &mut log, &framed("get a")).unwrap();
        assert_eq!(answer, framed("a 9"));
        assert_eq!(found(&answer), ("a".to_string(), 9));
    }
}

#[test]
fn routed_put_then_get_round_trip() {
    let mut leader = node(1, &[2, 3]);
    leader.leader_elected(Ballot { round: 1, pid: 1 });
    let client = Client { nodes: 3 };
    let mut log: Vec<LogEntry> = Vec::new();

    let put = client.dispatch("put 2 7\n").unwrap();
    assert_eq!(put.node, leader.pid());
    assert!(serve(&leader, &mut log, &put.payload).is_none());
    let get = client.dispatch("get 2\n").unwrap();
    assert_eq!(get.node, leader.pid());
    let answer = serve(&leader, &mut log, &get.payload).unwrap();
    assert_eq!(found(&answer), ("2".to_string(), 7));
}

#[test]
fn new_leader_takes_over_puts() {
    let mut survivors = vec![node(2, &[1, 3]), node(3, &[1, 2])];
    let mut old_leader = node(1, &[2, 3]);
    let first = Ballot { round: 1, pid: 1 };
    old_leader.leader_elected(first);
    for n in survivors.iter_mut() {
        n.leader_elected(first);
        assert!(matches!(n.handle_command(&framed("put a 1")), Err(NodeError::NotLeader)));
    }
    assert!(old_leader.is_leader());

    let second = Ballot { round: 2, pid: 3 };
    for n in survivors.iter_mut() {
        assert!(n.leader_elected(second));
    }
    assert!(!survivors[0].is_leader());
    assert!(survivors[1].is_leader());
    assert!(matches!(survivors[1].handle_command(&framed("put a 1")), Ok(Command::Put(_))));
    assert!(matches!(survivors[0].handle_command(&framed("put a 1")), Err(NodeError::NotLeader)));

    assert!(old_leader.leader_elected(second));
    assert!(!old_leader.is_leader());
    assert!(matches!(old_leader.handle_command(&framed("put a 1")), Err(NodeError::NotLeader)));
}

#[test]
fn key_named_not_is_stored_and_found_again() {
    let mut leader = node(1, &[2, 3]);
    leader.leader_elected(Ballot { round: 1, pid: 1 });
    let mut log: Vec<LogEntry> = Vec::new();
    assert!(serve(&leader, &mut log, &framed("put not 5")).is_none());
    let answer = serve(&leader, &mut log, &framed("get not")).unwrap();
    assert_eq!(answer, framed("not 5"));
    assert_eq!(found(&answer), ("not".to_string(), 5));
}

#[test]
fn answer_for_key_named_not_is_found() {
    let log = vec![LogEntry::Decided(KeyValue::new("not".to_string(), 5))];
    let payload = answer_get(&"not".to_string(), &Some(log));
    assert_eq!(found(&payload), ("not".to_string(), 5));
    assert_eq!(found(&framed("not 5")), ("not".to_string(), 5));
}

#[test]
fn absent_is_read_from_the_sentinel_alone() {
    assert!(matches!(read_answer(&framed("not found")), Ok(Reply::NotFound)));
    assert!(matches!(
        read_answer(&framed("not")),
        Err(AnswerError::Malformed(ReplyError::MissingValue))
    ));
    assert!(matches!(
        read_answer(&framed("not x")),
        Err(AnswerError::Malformed(ReplyError::BadValue))
    ));
    let absent = answer_get(&"not".to_string(), &Some(Vec::new()));
    assert!(matches!(read_answer(&absent), Ok(Reply::NotFound)));
    let none = answer_get(&"found".to_string(), &None);
    assert!(matches!(read_answer(&none), Ok(Reply::NotFound)));
}

#[test]
fn every_answer_of_a_node_is_read_back() {
    for key in ["a", "7", "not", "found", "no", ""] {
        for value in [0u64, 5, u64::MAX] {
            let log = vec![
                LogEntry::Decided(KeyValue::new(key.to_string(), 1)),
                LogEntry::Proposed(KeyValue::new(key.to_string(), 2)),
                LogEntry::Decided(KeyValue::new(key.to_string(), value)),
                LogEntry::Decided(KeyValue::new("other".to_string(), 3)),
            ];
            let payload = answer_get(&key.to_string(), &Some(log));
            assert_eq!(found(&payload), (key.to_string(), value));
        }
    }
}

#[test]
fn key_number_reads_trimmed_digits() {
    assert_eq!(key_number(&"7".to_string()), Some(7));
    assert_eq!(key_number(&" 7\n".to_string()), Some(7));
    assert_eq!(key_number(&"+12".to_string()), Some(12));
    assert_eq!(key_number(&"18446744073709551615".to_string()), Some(u64::MAX));
    assert_eq!(key_number(&"a".to_string()), None);
    assert_eq!(key_number(&"".to_string()), None);
    assert_eq!(key_number(&"1 2".to_string()), None);
    assert_eq!(key_number(&"18446744073709551616".to_string()), None);
}

#[test]
fn node_for_gives_owner_and_port() {
    assert_eq!(node_for(0, 3), Some((1, 64501)));
    assert_eq!(node_for(4, 3), Some((1, 64501)));
    assert_eq!(node_for(5, 3), Some((2, 64502)));
    assert_eq!(node_for(10, 3), Some((3, 64503)));
    assert_eq!(node_for(u64::MAX, 3), Some((3, 64503)));
    assert_eq!(node_for(9, 0), Some((1, 64501)));
    assert_eq!(node_for(5174, 5000), Some((1035, 65535)));
    assert_eq!(node_for(5175, 5000), None);
    assert_eq!(node_for(u64::MAX, u64::MAX), None);
}

#[test]
fn elected_node_takes_over_and_deposed_node_steps_down() {
    let mut first = node(1, &[2, 3]);
    let mut second = node(2, &[1, 3]);
    let early = Ballot { round: 1, pid: 1 };
    first.leader_elected(early);
    second.leader_elected(early);
    assert!(matches!(first.handle_command(&framed("put 4 1")), Ok(Command::Put(_))));
    let late = Ballot { round: 2, pid: 2 };
    assert!(first.leader_elected(late));
    assert!(second.leader_elected(late));
    assert!(matches!(first.handle_command(&framed("put 4 2")), Err(NodeError::NotLeader)));
    match second.handle_command(&framed("put 4 2")) {
        Ok(Command::Put(pair)) => {
            assert_eq!(pair.key, "4");
            assert_eq!(pair.value, 2);
        }
        other => panic!("unexpected: {:?}", other),
    }
    let log = vec![
        LogEntry::Decided(KeyValue::new("4".to_string(), 1)),
        LogEntry::Decided(KeyValue::new("9".to_string(), 8)),
        LogEntry::Decided(KeyValue::new("4".to_string(), 2)),
    ];
    assert_eq!(found(&answer_get(&"4".to_string(), &Some(log.clone_entries()))), ("4".to_string(), 2));
    assert_eq!(found(&answer_get(&"9".to_string(), &Some(log))), ("9".to_string(), 8));
}
