use vstd::prelude::*;

use crate::builder::{AgentBuilder, DEFAULT_INTERVAL_S, DEFAULT_WAIT_MS};
use crate::codec::{wire, MsgView};
use crate::directory::{add_spec, strings_view, PeerDirectory};
use crate::inbox::Inbox;
use crate::prober::{others, ping_targets};

pub use crate::codec::Msg;

verus! {

///
/// An agent in a multi-agent system-of-systems enabling comms.
///
pub trait Agent {
    /// The payloads received and not yet retrieved.
    spec fn pending(&self) -> Seq<Seq<char>>;

    /// The participants a broadcast goes to.
    spec fn recipients(&self) -> Seq<Seq<char>>;

    /// Return the current messages for this Agent, oldest first, and forget them.
    fn retrieve(&mut self) -> (r: Vec<String>)
        ensures
            strings_view(r@) == old(self).pending(),
            final(self).pending() == Seq::<Seq<char>>::empty(),
    ;

    /// Broadcast a message to the participants in the system-of-systems: the
    /// wire string to send to each of them, paired with the participant.
    fn broadcast(&self, msg: &str) -> (r: Vec<(String, String)>)
        ensures
            r.len() == self.recipients().len(),
            forall|i: int| 0 <= i < r.len() ==> r[i].0@ == self.recipients()[i],
            forall|i: int| 0 <= i < r.len() ==> r[i].1@ == wire(MsgView::Message(msg@)),
    ;
}

///
/// An agent: its address, the peers it knows, the messages it has received,
/// and how it probes its peers.
///
pub struct ZeroAgent {
    pub ep: String,
    pub peers: PeerDirectory,
    pub msgs: Inbox,
    pub wait: u64,
    pub timeout: u64,
}

impl ZeroAgent {
    /// The directory is well formed and belongs to this agent.
    pub open spec fn wf(&self) -> bool {
        self.peers.wf() && self.peers.own_addr() == self.ep@
    }

    /// Returns a builder for the ZeroAgent.
    pub fn builder(ep: String) -> (r: AgentBuilder)
        ensures
            r.spec_ep() == ep@,
            r.spec_wait() == DEFAULT_WAIT_MS,
            r.spec_timeout() == DEFAULT_INTERVAL_S,
    {
        AgentBuilder::new(ep)
    }

    /// add a peer to the multi-agent system: ignored where it is known
    /// already or is this agent itself.
    pub fn add_peer(&mut self, ep: String)
        requires
            old(self).wf(),
        ensures
            final(self).wf(),
            final(self).peers@ == add_spec(old(self).peers@, old(self).ep@, ep@),
            final(self).ep == old(self).ep,
            final(self).msgs == old(self).msgs,
            final(self).wait == old(self).wait,
            final(self).timeout == old(self).timeout,
    {
        self.peers.add(ep);
    }

    /// The number of known peers, this agent included while it has not left.
    pub fn get_n_peers(&self) -> (r: usize)
        ensures
            r == self.peers@.len(),
    {
        self.peers.size()
    }
}

impl Agent for ZeroAgent {
    open spec fn pending(&self) -> Seq<Seq<char>> {
        self.msgs@
    }

    open spec fn recipients(&self) -> Seq<Seq<char>> {
        others(self.peers@, self.peers.own_addr())
    }

    fn retrieve(&mut self) -> (r: Vec<String>) {
        self.msgs.drain()
    }

    fn broadcast(&self, msg: &str) -> (r: Vec<(String, String)>) {
        let targets = ping_targets(&self.peers);
        let mut r: Vec<(String, String)> = Vec::new();
        let mut i: usize = 0;
        while i < targets.len()
            invariant
                i <= targets.len(),
                strings_view(targets@) == self.recipients(),
                r.len() == i,
                forall|j: int| 0 <= j < i ==> r[j].0@ == self.recipients()[j],
                forall|j: int| 0 <= j < i ==> r[j].1@ == wire(MsgView::Message(msg@)),
            decreases targets.len() - i,
        {
            let payload = Msg::Message(msg.to_owned());
            let w = payload.to_msg();
            assert(targets@[i as int]@ == self.recipients()[i as int]);
            r.push((targets[i].clone(), w));
            i = i + 1;
        }
        r
    }
}

} // verus!
