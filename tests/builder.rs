use rusty_agent::agent::ZeroAgent;
use rusty_agent::builder::AgentBuilder;

#[test]
fn test_build_for_success() {
    AgentBuilder::new("inproc://#0".to_string()).build();
}

#[test]
fn test_timeout_for_success() {
    AgentBuilder::new("inproc://#0".to_string())
        .timeout(10)
        .build();
}

#[test]
fn test_wait_for_success() {
    AgentBuilder::new("inproc://#0".to_string())
        .wait(10)
        .build();
}

#[test]
fn test_build_for_sanity() {
    let agent: ZeroAgent = AgentBuilder::new("inproc://#0".to_string())
        .timeout(1)
        .wait(2)
        .build();
    assert_eq!(agent.timeout, 1);
    assert_eq!(agent.wait, 2);
}

#[test]
fn builder_defaults() {
    let agent = AgentBuilder::new("tcp://127.0.0.1:7000".to_string()).build();
    assert_eq!(agent.wait, 100);
    assert_eq!(agent.timeout, 2);
    assert_eq!(agent.ep, "tcp://127.0.0.1:7000");
    assert_eq!(agent.get_n_peers(), 1);
    assert_eq!(agent.peers.snapshot(), vec!["tcp://127.0.0.1:7000".to_string()]);
    assert_eq!(agent.msgs.len(), 0);
}
