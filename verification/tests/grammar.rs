use paxos_kv::command::{parse, Command, CommandError};
use paxos_kv::reply::{read_reply, render_reply, Reply, ReplyError};

fn put_of(text: &str) -> (String, u64) {
    match parse(text) {
        Ok(Command::Put(pair)) => (pair.key, pair.value),
        other => panic!("no put: {:?}", other),
    }
}

fn get_of(text: &str) -> String {
    match parse(text) {
        Ok(Command::Get(key)) => key,
        other => panic!("no get: {:?}", other),
    }
}

fn error_of(text: &str) -> CommandError {
    match parse(text) {
        Err(error) => error,
        other => panic!("no error: {:?}", other),
    }
}

#[test]
fn put_with_key_and_value() {
    assert_eq!(put_of("put a 7"), ("a".to_string(), 7));
    assert_eq!(put_of("put 3 18446744073709551615"), ("3".to_string(), u64::MAX));
    assert_eq!(put_of("put key +5"), ("key".to_string(), 5));
}

#[test]
fn put_value_may_carry_whitespace() {
    assert_eq!(put_of("put a 7\n"), ("a".to_string(), 7));
    assert_eq!(put_of("put a \t7\r\n"), ("a".to_string(), 7));
}

#[test]
fn put_key_is_taken_as_it_stands() {
    assert_eq!(put_of("put  7"), ("".to_string(), 7));
    assert_eq!(put_of("put a\t 7"), ("a\t".to_string(), 7));
    assert_eq!(put_of("put \u{e9}t\u{e9} 1"), ("\u{e9}t\u{e9}".to_string(), 1));
}

#[test]
fn get_with_key() {
    assert_eq!(get_of("get a"), "a");
    assert_eq!(get_of("get 42"), "42");
    assert_eq!(get_of("get "), "");
    assert_eq!(get_of("get a b c"), "a");
}

#[test]
fn command_key_and_kind() {
    let put = parse("put k 1").unwrap();
    assert!(put.is_put());
    assert_eq!(put.key(), "k");
    let get = parse("get q").unwrap();
    assert!(!get.is_put());
    assert_eq!(get.key(), "q");
}

#[test]
fn put_without_value_is_refused() {
    assert_eq!(error_of("put a"), CommandError::MissingValue);
}

#[test]
fn verb_alone_is_refused() {
    assert_eq!(error_of("put"), CommandError::MissingKey);
    assert_eq!(error_of("get"), CommandError::MissingKey);
}

#[test]
fn unknown_verb_is_refused() {
    assert_eq!(error_of(""), CommandError::UnknownVerb);
    assert_eq!(error_of("del a"), CommandError::UnknownVerb);
    assert_eq!(error_of("PUT a 1"), CommandError::UnknownVerb);
    assert_eq!(error_of(" put a 1"), CommandError::UnknownVerb);
    assert_eq!(error_of("get\n"), CommandError::UnknownVerb);
    assert_eq!(error_of("puts a 1"), CommandError::UnknownVerb);
    assert_eq!(error_of("pu"), CommandError::UnknownVerb);
}

#[test]
fn put_with_bad_value_is_refused() {
    assert_eq!(error_of("put a b"), CommandError::BadValue);
    assert_eq!(error_of("put a -1"), CommandError::BadValue);
    assert_eq!(error_of("put a "), CommandError::BadValue);
    assert_eq!(error_of("put a 18446744073709551616"), CommandError::BadValue);
    assert_eq!(error_of("put a 1.5"), CommandError::BadValue);
}

#[test]
fn put_with_more_words_is_refused() {
    assert_eq!(error_of("put a 1 2"), CommandError::TooManyWords);
    assert_eq!(error_of("put a 1 "), CommandError::TooManyWords);
    assert_eq!(error_of("put a  1"), CommandError::TooManyWords);
}

#[test]
fn reply_for_a_bound_key() {
    assert_eq!(render_reply(&"a".to_string(), Some(7)), "a 7");
    assert_eq!(render_reply(&"12".to_string(), Some(0)), "12 0");
    assert_eq!(
        render_reply(&"k".to_string(), Some(u64::MAX)),
        "k 18446744073709551615"
    );
    assert_eq!(render_reply(&"".to_string(), Some(3)), " 3");
}

#[test]
fn reply_for_an_absent_key() {
    assert_eq!(render_reply(&"z".to_string(), None), "not found");
    assert_eq!(render_reply(&"".to_string(), None), "not found");
}

#[test]
fn reading_a_found_reply() {
    match read_reply("a 7") {
        Ok(Reply::Found(pair)) => {
            assert_eq!(pair.key, "a");
            assert_eq!(pair.value, 7);
        }
        other => panic!("unexpected: {:?}", other),
    }
}

#[test]
fn reading_the_not_found_reply() {
    assert!(matches!(read_reply("not found"), Ok(Reply::NotFound)));
}

#[test]
fn key_named_not_is_read_as_found() {
    match read_reply("not 5") {
        Ok(Reply::Found(pair)) => {
            assert_eq!(pair.key, "not");
            assert_eq!(pair.value, 5);
        }
        other => panic!("unexpected: {:?}", other),
    }
    match read_reply("not 0") {
        Ok(Reply::Found(pair)) => {
            assert_eq!(pair.key, "not");
            assert_eq!(pair.value, 0);
        }
        other => panic!("unexpected: {:?}", other),
    }
}

#[test]
fn only_the_whole_sentinel_means_absent() {
    assert!(matches!(read_reply("not"), Err(ReplyError::MissingValue)));
    assert!(matches!(read_reply("not x"), Err(ReplyError::BadValue)));
    assert!(matches!(read_reply("not found "), Err(ReplyError::BadValue)));
    assert!(matches!(read_reply("not found\n"), Err(ReplyError::BadValue)));
    assert!(matches!(read_reply(" not found"), Err(ReplyError::BadValue)));
    assert!(matches!(read_reply("not  found"), Err(ReplyError::BadValue)));
    assert!(matches!(read_reply("Not found"), Err(ReplyError::BadValue)));
    assert!(matches!(read_reply("not founds"), Err(ReplyError::BadValue)));
    assert!(matches!(read_reply("not foun"), Err(ReplyError::BadValue)));
    assert!(matches!(read_reply("found"), Err(ReplyError::MissingValue)));
}

#[test]
fn reading_a_reply_without_value() {
    assert!(matches!(read_reply("a"), Err(ReplyError::MissingValue)));
    assert!(matches!(read_reply(""), Err(ReplyError::MissingValue)));
    assert!(matches!(read_reply("note"), Err(ReplyError::MissingValue)));
}

#[test]
fn reading_a_reply_with_bad_value() {
    assert!(matches!(read_reply("a b"), Err(ReplyError::BadValue)));
    assert!(matches!(read_reply("a "), Err(ReplyError::BadValue)));
    assert!(matches!(read_reply("a 18446744073709551616"), Err(ReplyError::BadValue)));
}

#[test]
fn written_reply_is_read_back() {
    for key in ["a", "0", "17", "nothing", "no", "not", "found", "k\u{e9}y", ""] {
        for value in [0u64, 7, 9, u64::MAX] {
            let text = render_reply(&key.to_string(), Some(value));
            match read_reply(&text) {
                Ok(Reply::Found(pair)) => {
                    assert_eq!(pair.key, key);
                    assert_eq!(pair.value, value);
                }
                other => panic!("unexpected: {:?}", other),
            }
        }
        let absent = render_reply(&key.to_string(), None);
        assert!(matches!(read_reply(&absent), Ok(Reply::NotFound)));
    }
}

#[test]
fn written_command_is_read_back() {
    for key in ["a", "0", "17", ""] {
        for value in [0u64, 7, u64::MAX] {
            let line = format!("put {} {}", key, value);
            assert_eq!(put_of(&line), (key.to_string(), value));
        }
        assert_eq!(get_of(&format!("get {}", key)), key);
    }
}
