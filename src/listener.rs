use vstd::prelude::*;

use crate::codec::{decode, parse, split_once_char, Msg, MsgView, ProtocolError};
use crate::directory::{merge_spec, strings_view, PeerDirectory};
use crate::inbox::Inbox;

verus! {

/// The separator between the addresses of a gossip payload.
pub const ADDR_SEP: char = ',';

/// The pieces of `s` between commas, as `str::split(',')` gives them: one
/// more piece than there are commas.
pub open spec fn pieces(s: Seq<char>) -> Seq<Seq<char>>
    decreases s.len(),
{
    if s.len() == 0 {
        seq![Seq::empty()]
    } else if s[0] == ',' {
        seq![Seq::empty()] + pieces(s.skip(1))
    } else {
        let rest = pieces(s.skip(1));
        rest.update(0, seq![s[0]] + rest[0])
    }
}

/// The addresses of a gossip payload: none for an empty payload, else the
/// pieces between commas.
pub open spec fn fields(s: Seq<char>) -> Seq<Seq<char>> {
    if s.len() == 0 {
        Seq::empty()
    } else {
        pieces(s)
    }
}

proof fn lemma_pieces_nonempty(s: Seq<char>)
    ensures
        pieces(s).len() >= 1,
    decreases s.len(),
{
    if s.len() > 0 {
        lemma_pieces_nonempty(s.skip(1));
    }
}

/// A text without commas is one piece.
pub(crate) proof fn lemma_pieces_single(a: Seq<char>)
    requires
        !a.contains(','),
    ensures
        pieces(a) == seq![a],
    decreases a.len(),
{
    if a.len() > 0 {
        let t = a.skip(1);
        assert(!t.contains(',')) by {
            if t.contains(',') {
                let j = choose|j: int| 0 <= j < t.len() && t[j] == ',';
                assert(a[j + 1] == ',');
            }
        }
        lemma_pieces_single(t);
        assert(seq![a[0]] + t =~= a);
        assert(pieces(a) =~= seq![a]);
    } else {
        assert(a =~= Seq::<char>::empty());
    }
}

/// The pieces of `a,b` where `a` holds no comma: `a`, then the pieces of `b`.
pub(crate) proof fn lemma_pieces_split(a: Seq<char>, b: Seq<char>)
    requires
        !a.contains(','),
    ensures
        pieces(a + seq![','] + b) == seq![a] + pieces(b),
    decreases a.len(),
{
    let s = a + seq![','] + b;
    if a.len() == 0 {
        assert(s.skip(1) =~= b);
        assert(s[0] == ',');
        assert(a =~= Seq::<char>::empty());
        assert(pieces(s) =~= seq![a] + pieces(b));
    } else {
        let t = a.skip(1);
        assert(!t.contains(',')) by {
            if t.contains(',') {
                let j = choose|j: int| 0 <= j < t.len() && t[j] == ',';
                assert(a[j + 1] == ',');
            }
        }
        lemma_pieces_split(t, b);
        assert(s.skip(1) =~= t + seq![','] + b);
        assert(s[0] == a[0]);
        assert(seq![a[0]] + t =~= a);
        assert(pieces(s) =~= seq![a] + pieces(b));
    }
}

/// The addresses of a gossip payload.
pub fn split_fields(csv: &str) -> (r: Vec<String>)
    ensures
        strings_view(r@) == fields(csv@),
{
    let mut out: Vec<String> = Vec::new();
    if csv.is_empty() {
        assert(strings_view(out@) =~= fields(csv@));
        return out;
    }
    let mut rest: &str = csv;
    loop
        invariant
            csv@.len() > 0,
            strings_view(out@) + pieces(rest@) == pieces(csv@),
        decreases rest@.len(),
    {
        let ghost before = out@;
        match split_once_char(rest, ADDR_SEP) {
            Some((head, tail)) => {
                proof {
                    lemma_pieces_split(head@, tail@);
                }
                out.push(head.to_owned());
                assert(strings_view(out@) =~= strings_view(before) + seq![head@]);
                assert(strings_view(out@) + pieces(tail@) =~= strings_view(before) + pieces(
                    rest@,
                ));
                rest = tail;
            },
            None => {
                proof {
                    lemma_pieces_single(rest@);
                }
                out.push(rest.to_owned());
                assert(strings_view(out@) =~= strings_view(before) + pieces(rest@));
                return out;
            },
        }
    }
}

/// Whether the listener keeps serving.
#[derive(Debug, Clone, Copy, PartialEq, Eq, Structural)]
pub enum ListenerState {
    Running,
    Terminated,
}

/// What one inbound request does: the directory after it, the inbox after
/// it, and the listener's state or the decoding error. A gossip merges its
/// addresses, a message is appended to the inbox, a kill empties the
/// directory and stops the listener; a request that does not decode changes
/// nothing.
pub open spec fn step_spec(
    peers: Seq<Seq<char>>,
    own: Seq<char>,
    inbox: Seq<Seq<char>>,
    raw: Seq<char>,
) -> (Seq<Seq<char>>, Seq<Seq<char>>, Result<ListenerState, ProtocolError>) {
    match parse(raw) {
        Ok(MsgView::Ping(csv)) => (
            merge_spec(peers, own, fields(csv)),
            inbox,
            Ok(ListenerState::Running),
        ),
        Ok(MsgView::Message(p)) => (peers, inbox.push(p), Ok(ListenerState::Running)),
        Ok(MsgView::Kill) => (Seq::empty(), inbox, Ok(ListenerState::Terminated)),
        Err(e) => (peers, inbox, Err(e)),
    }
}

/// Handle one inbound request, already acknowledged, on the agent's state.
pub fn step(peers: &mut PeerDirectory, inbox: &mut Inbox, raw: &str) -> (r: Result<
    ListenerState,
    ProtocolError,
>)
    requires
        old(peers).wf(),
    ensures
        final(peers).wf(),
        final(peers).own_addr() == old(peers).own_addr(),
        (final(peers)@, final(inbox)@, r) == step_spec(
            old(peers)@,
            old(peers).own_addr(),
            old(inbox)@,
            raw@,
        ),
{
    match decode(raw) {
        Ok(Msg::Ping(csv)) => {
            let addrs = split_fields(csv.as_str());
            peers.merge(&addrs);
            Ok(ListenerState::Running)
        },
        Ok(Msg::Message(payload)) => {
            inbox.push(payload);
            Ok(ListenerState::Running)
        },
        Ok(Msg::Kill()) => {
            peers.clear();
            Ok(ListenerState::Terminated)
        },
        Err(e) => Err(e),
    }
}

} // verus!
