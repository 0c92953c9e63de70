use rusty_agent::agent;
use rusty_agent::agent::{Agent, Msg, ZeroAgent};
use rusty_agent::codec::decode;
use rusty_agent::listener::{step, ListenerState};
use rusty_agent::prober::{finish_round, gossip, ping_targets};

#[test]
fn test_builder_for_success() {
    agent::ZeroAgent::builder("inproc://#0".to_string()).build();
}

#[test]
fn test_add_peer_for_success() {
    let mut a_0 = agent::ZeroAgent::builder("inproc://#1".to_string()).build();
    a_0.add_peer("inproc://#1".to_string());
}

/// Hands a wire string to an agent's listener.
fn deliver(to: &mut ZeroAgent, wire: &str) -> ListenerState {
    step(&mut to.peers, &mut to.msgs, wire).unwrap()
}

/// One probe round of `from`, every target answering, the probes delivered
/// to the agents of `mesh` that are addressed.
fn probe_round(from: &mut ZeroAgent, mesh: &mut [&mut ZeroAgent]) -> bool {
    let targets = ping_targets(&from.peers);
    let wire = gossip(&from.peers).to_msg();
    let mut acked = Vec::new();
    for t in targets.iter() {
        let mut answered = false;
        for other in mesh.iter_mut() {
            if &other.ep == t {
                deliver(other, &wire);
                answered = true;
            }
        }
        acked.push(answered);
    }
    finish_round(&mut from.peers, &targets, &acked)
}

#[test]
fn add_peer_ignores_self_and_duplicates() {
    let mut a = ZeroAgent::builder("ep0".to_string()).build();
    a.add_peer("ep0".to_string());
    assert_eq!(a.get_n_peers(), 1);
    a.add_peer("ep1".to_string());
    a.add_peer("ep1".to_string());
    assert_eq!(a.get_n_peers(), 2);
    assert_eq!(a.peers.snapshot(), vec!["ep0".to_string(), "ep1".to_string()]);
}

#[test]
fn two_agents_converge_and_exchange_messages() {
    let mut a = ZeroAgent::builder("ep0".to_string()).build();
    let mut b = ZeroAgent::builder("ep1".to_string()).build();
    b.add_peer("ep0".to_string());

    assert!(probe_round(&mut b, &mut [&mut a]));
    assert!(probe_round(&mut a, &mut [&mut b]));
    assert_eq!(a.get_n_peers(), 2);
    assert_eq!(b.get_n_peers(), 2);

    let hi = Msg::Message("hi".to_string()).to_msg();
    assert_eq!(deliver(&mut b, &hi), ListenerState::Running);
    assert_eq!(b.retrieve(), vec!["hi".to_string()]);
    assert!(a.retrieve().is_empty());

    let out = a.broadcast("yo");
    assert_eq!(out, vec![("ep1".to_string(), "M@yo".to_string())]);
    for (peer, wire) in out.iter() {
        assert_eq!(peer, "ep1");
        deliver(&mut b, wire);
    }
    assert_eq!(b.retrieve(), vec!["yo".to_string()]);
    assert!(a.retrieve().is_empty());
}

#[test]
fn broadcast_skips_self() {
    let mut a = ZeroAgent::builder("ep0".to_string()).build();
    assert!(a.broadcast("bar").is_empty());
    a.add_peer("ep1".to_string());
    a.add_peer("ep2".to_string());
    let out = a.broadcast("bar");
    assert_eq!(
        out,
        vec![
            ("ep1".to_string(), "M@bar".to_string()),
            ("ep2".to_string(), "M@bar".to_string()),
        ]
    );
}

#[test]
fn retrieve_twice_drains() {
    let mut a = ZeroAgent::builder("ep0".to_string()).build();
    deliver(&mut a, "M@Foo");
    deliver(&mut a, "M@Bar");
    assert_eq!(a.retrieve(), vec!["Foo".to_string(), "Bar".to_string()]);
    assert!(a.retrieve().is_empty());
}

#[test]
fn silent_peer_is_pruned() {
    let mut a = ZeroAgent::builder("ep0".to_string()).build();
    let mut b = ZeroAgent::builder("ep1".to_string()).build();
    a.add_peer("ep1".to_string());
    a.add_peer("ep9".to_string());
    assert!(probe_round(&mut a, &mut [&mut b]));
    assert_eq!(a.peers.snapshot(), vec!["ep0".to_string(), "ep1".to_string()]);
    // b heard the gossip before the round ended, so it still lists ep9.
    assert_eq!(b.get_n_peers(), 3);
    assert!(probe_round(&mut b, &mut [&mut a]));
    assert_eq!(b.peers.snapshot(), vec!["ep1".to_string(), "ep0".to_string()]);
}

#[test]
fn kill_clears_directory_and_stops() {
    let mut a = ZeroAgent::builder("ep0".to_string()).build();
    a.add_peer("ep1".to_string());
    let kill = Msg::Kill().to_msg();
    assert_eq!(deliver(&mut a, &kill), ListenerState::Terminated);
    assert_eq!(a.get_n_peers(), 0);
    assert!(ping_targets(&a.peers).is_empty());
    assert!(!probe_round(&mut a, &mut []));
}

#[test]
fn undecodable_request_changes_nothing() {
    let mut a = ZeroAgent::builder("ep0".to_string()).build();
    assert!(step(&mut a.peers, &mut a.msgs, "garbage").is_err());
    assert!(step(&mut a.peers, &mut a.msgs, "X@1").is_err());
    assert_eq!(a.get_n_peers(), 1);
    assert!(a.retrieve().is_empty());
    assert_eq!(decode("X@1").unwrap_err(), rusty_agent::codec::ProtocolError::UnknownTag);
}

#[test]
fn gossip_merges_addresses() {
    let mut a = ZeroAgent::builder("ep0".to_string()).build();
    assert_eq!(deliver(&mut a, "P@ep1,ep0,ep2,ep1"), ListenerState::Running);
    assert_eq!(
        a.peers.snapshot(),
        vec!["ep0".to_string(), "ep1".to_string(), "ep2".to_string()]
    );
    assert_eq!(deliver(&mut a, "P@"), ListenerState::Running);
    assert_eq!(a.get_n_peers(), 3);
}
