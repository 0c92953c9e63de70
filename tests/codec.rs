use rusty_agent::codec::{decode, Msg, ProtocolError};
use rusty_agent::directory::PeerDirectory;
use rusty_agent::inbox::Inbox;
use rusty_agent::listener::split_fields;
use rusty_agent::prober::{dead_peers, finish_round, gossip, join_addrs, ping_targets};

fn strings(v: &[&str]) -> Vec<String> {
    v.iter().map(|s| s.to_string()).collect()
}

#[test]
fn encode_each_kind() {
    assert_eq!(Msg::Ping("a,b".to_string()).to_msg(), "P@a,b");
    assert_eq!(Msg::Ping(String::new()).to_msg(), "P@");
    assert_eq!(Msg::Message("hello".to_string()).to_msg(), "M@hello");
    assert_eq!(Msg::Kill().to_msg(), "K@0");
}

#[test]
fn decode_each_kind() {
    assert_eq!(decode("P@a,b"), Ok(Msg::Ping("a,b".to_string())));
    assert_eq!(decode("M@hello"), Ok(Msg::Message("hello".to_string())));
    assert_eq!(decode("K@0"), Ok(Msg::Kill()));
    assert_eq!(decode("K@anything"), Ok(Msg::Kill()));
    assert_eq!(decode("M@a@b"), Ok(Msg::Message("a@b".to_string())));
    assert_eq!(decode("M@"), Ok(Msg::Message(String::new())));
}

#[test]
fn decode_errors() {
    assert_eq!(decode("hello"), Err(ProtocolError::Malformed));
    assert_eq!(decode(""), Err(ProtocolError::Malformed));
    assert_eq!(decode("X@1"), Err(ProtocolError::UnknownTag));
    assert_eq!(decode("@x"), Err(ProtocolError::UnknownTag));
    assert_eq!(decode("PM@x"), Err(ProtocolError::UnknownTag));
}

#[test]
fn round_trip_values() {
    let all = vec![
        Msg::Ping("tcp://127.0.0.1:5000,tcp://127.0.0.1:5001".to_string()),
        Msg::Ping(String::new()),
        Msg::Message("x@y@z".to_string()),
        Msg::Message(String::new()),
        Msg::Kill(),
    ];
    for m in all {
        assert_eq!(decode(&m.to_msg()), Ok(m.clone()));
    }
}

#[test]
fn split_fields_cases() {
    assert!(split_fields("").is_empty());
    assert_eq!(split_fields("a"), strings(&["a"]));
    assert_eq!(split_fields("a,b"), strings(&["a", "b"]));
    assert_eq!(split_fields("a,,b"), strings(&["a", "", "b"]));
    assert_eq!(split_fields("a,"), strings(&["a", ""]));
    assert_eq!(split_fields(","), strings(&["", ""]));
}

#[test]
fn join_addrs_cases() {
    assert_eq!(join_addrs(&Vec::new()), "");
    assert_eq!(join_addrs(&strings(&["a"])), "a");
    assert_eq!(join_addrs(&strings(&["a", "b", "c"])), "a,b,c");
    assert_eq!(split_fields(&join_addrs(&strings(&["a", "b"]))), strings(&["a", "b"]));
}

#[test]
fn directory_operations() {
    let mut d = PeerDirectory::new("me".to_string());
    assert_eq!(d.own(), "me");
    d.add("me".to_string());
    d.add("x".to_string());
    d.merge(&strings(&["y", "x", "me", "z"]));
    assert_eq!(d.snapshot(), strings(&["me", "x", "y", "z"]));
    assert!(d.contains(&"y".to_string()));
    assert!(!d.contains(&"w".to_string()));
    d.remove_all(&strings(&["x", "w", "z"]));
    assert_eq!(d.snapshot(), strings(&["me", "y"]));
    assert_eq!(d.size(), 2);
    d.clear();
    assert_eq!(d.size(), 0);
    assert!(d.snapshot().is_empty());
}

#[test]
fn inbox_drain() {
    let mut i = Inbox::new();
    assert!(i.drain().is_empty());
    i.push("one".to_string());
    i.push("two".to_string());
    assert_eq!(i.len(), 2);
    assert_eq!(i.drain(), strings(&["one", "two"]));
    assert_eq!(i.len(), 0);
    assert!(i.drain().is_empty());
}

#[test]
fn probe_round_pieces() {
    let mut d = PeerDirectory::new("me".to_string());
    d.merge(&strings(&["a", "b", "c"]));
    let targets = ping_targets(&d);
    assert_eq!(targets, strings(&["a", "b", "c"]));
    assert_eq!(gossip(&d), Msg::Ping("me,a,b,c".to_string()));
    let acked = vec![true, false, false];
    assert_eq!(dead_peers(&targets, &acked), strings(&["b", "c"]));
    assert!(finish_round(&mut d, &targets, &acked));
    assert_eq!(d.snapshot(), strings(&["me", "a"]));
}

#[test]
fn round_on_emptied_directory_stops() {
    let mut d = PeerDirectory::new("me".to_string());
    d.clear();
    let targets = ping_targets(&d);
    assert!(targets.is_empty());
    assert_eq!(gossip(&d), Msg::Ping(String::new()));
    assert!(!finish_round(&mut d, &targets, &Vec::new()));
}
