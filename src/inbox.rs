use vstd::prelude::*;

use crate::directory::strings_view;

verus! {

/// What a drain hands out, and what is left behind: everything, and nothing.
pub open spec fn drain_spec(msgs: Seq<Seq<char>>) -> (Seq<Seq<char>>, Seq<Seq<char>>) {
    (msgs, Seq::empty())
}

/// The received application payloads, oldest first.
pub struct Inbox {
    msgs: Vec<String>,
}

impl View for Inbox {
    type V = Seq<Seq<char>>;

    closed spec fn view(&self) -> Seq<Seq<char>> {
        strings_view(self.msgs@)
    }
}

impl Inbox {
    /// An empty inbox.
    pub fn new() -> (r: Self)
        ensures
            r@ == Seq::<Seq<char>>::empty(),
    {
        let r = Inbox { msgs: Vec::new() };
        assert(r@ =~= Seq::<Seq<char>>::empty());
        r
    }

    /// Append a payload.
    pub fn push(&mut self, payload: String)
        ensures
            final(self)@ == old(self)@.push(payload@),
    {
        self.msgs.push(payload);
        assert(final(self)@ =~= old(self)@.push(payload@));
    }

    /// Hand out every payload in arrival order and empty the inbox.
    pub fn drain(&mut self) -> (r: Vec<String>)
        ensures
            (strings_view(r@), final(self)@) == drain_spec(old(self)@),
    {
        let mut out: Vec<String> = Vec::new();
        std::mem::swap(&mut out, &mut self.msgs);
        assert(self@ =~= Seq::<Seq<char>>::empty());
        out
    }

    /// The number of payloads waiting.
    pub fn len(&self) -> (r: usize)
        ensures
            r == self@.len(),
    {
        self.msgs.len()
    }
}

/// Two drains in a row with nothing received in between: the first hands out
/// every waiting payload, the second hands out nothing, so no payload is
/// delivered twice.
pub proof fn lemma_drain_twice(msgs: Seq<Seq<char>>)
    ensures
        drain_spec(msgs).0 == msgs,
        drain_spec(drain_spec(msgs).1).0 == Seq::<Seq<char>>::empty(),
        msgs.len() > 0 ==> drain_spec(msgs).0.len() > 0,
{
}

} // verus!
