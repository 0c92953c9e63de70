use vstd::prelude::*;

use crate::agent::ZeroAgent;
use crate::directory::PeerDirectory;
use crate::inbox::Inbox;

verus! {

/// How long, in milliseconds, a probed peer has to acknowledge, unless set.
pub const DEFAULT_WAIT_MS: u64 = 100;

/// The pause, in seconds, between two probe rounds, unless set.
pub const DEFAULT_INTERVAL_S: u64 = 2;

///
/// An struct to help create a new Agent.
///
pub struct AgentBuilder {
    ep: String,
    wait: u64,
    timeout: u64,
}

/// Builder for creating new agents.
impl AgentBuilder {
    /// The address the agent will listen on.
    pub closed spec fn spec_ep(&self) -> Seq<char> {
        self.ep@
    }

    /// The wait window in milliseconds.
    pub closed spec fn spec_wait(&self) -> u64 {
        self.wait
    }

    /// The probe interval in seconds.
    pub closed spec fn spec_timeout(&self) -> u64 {
        self.timeout
    }

    /// Creates a new agent.
    pub fn new(ep: String) -> (r: Self)
        ensures
            r.spec_ep() == ep@,
            r.spec_wait() == DEFAULT_WAIT_MS,
            r.spec_timeout() == DEFAULT_INTERVAL_S,
    {
        AgentBuilder { ep, wait: DEFAULT_WAIT_MS, timeout: DEFAULT_INTERVAL_S }
    }

    /// Set the timeout between pings to neighbours in seconds.
    pub fn timeout(self, timeout: u64) -> (r: Self)
        ensures
            r.spec_ep() == self.spec_ep(),
            r.spec_wait() == self.spec_wait(),
            r.spec_timeout() == timeout,
    {
        let AgentBuilder { ep, wait, .. } = self;
        AgentBuilder { ep, wait, timeout }
    }

    /// Set the wait time in ms for a neighbour to respond.
    pub fn wait(self, wait: u64) -> (r: Self)
        ensures
            r.spec_ep() == self.spec_ep(),
            r.spec_wait() == wait,
            r.spec_timeout() == self.spec_timeout(),
    {
        let AgentBuilder { ep, timeout, .. } = self;
        AgentBuilder { ep, wait, timeout }
    }

    /// Create the actual ZeroAgent: it knows only itself and has no message.
    pub fn build(self) -> (r: ZeroAgent)
        ensures
            r.wf(),
            r.ep@ == self.spec_ep(),
            r.peers@ == seq![self.spec_ep()],
            r.msgs@ == Seq::<Seq<char>>::empty(),
            r.wait == self.spec_wait(),
            r.timeout == self.spec_timeout(),
    {
        let AgentBuilder { ep, wait, timeout } = self;
        let peers = PeerDirectory::new(ep.clone());
        ZeroAgent { ep, peers, msgs: Inbox::new(), wait, timeout }
    }
}

} // verus!
