use vstd::prelude::*;

use crate::codec::{wire, Msg, MsgView, ProtocolError};
use crate::directory::{add_spec, merge_spec, strings_view, without, PeerDirectory};
use crate::listener::{fields, lemma_pieces_single, lemma_pieces_split, step_spec, ListenerState};

verus! {

/// Every known address but the agent's own, in the directory's order.
pub open spec fn others(peers: Seq<Seq<char>>, own: Seq<char>) -> Seq<Seq<char>> {
    peers.filter(not_own(own))
}

/// Whether an address is another agent's.
pub open spec fn not_own(own: Seq<char>) -> spec_fn(Seq<char>) -> bool {
    |p: Seq<char>| p != own
}

/// The addresses joined with commas: empty for no address.
pub open spec fn join(ps: Seq<Seq<char>>) -> Seq<char>
    decreases ps.len(),
{
    if ps.len() == 0 {
        Seq::empty()
    } else if ps.len() == 1 {
        ps[0]
    } else {
        ps[0] + seq![','] + join(ps.skip(1))
    }
}

/// The targets whose probe got no acknowledgement, in the targets' order.
pub open spec fn unacked(targets: Seq<Seq<char>>, acked: Seq<bool>) -> Seq<Seq<char>>
    decreases targets.len(),
{
    if targets.len() == 0 {
        Seq::empty()
    } else {
        let n = targets.len() - 1;
        let init = unacked(targets.take(n), acked);
        if acked[n] {
            init
        } else {
            init.push(targets[n])
        }
    }
}

/// A usable address: not empty, and free of the separator of a gossip payload.
pub open spec fn plain_addr(p: Seq<char>) -> bool {
    p.len() > 0 && !p.contains(',')
}

proof fn lemma_join_push(ps: Seq<Seq<char>>, x: Seq<char>)
    requires
        ps.len() >= 1,
    ensures
        join(ps.push(x)) == join(ps) + seq![','] + x,
    decreases ps.len(),
{
    let q = ps.push(x);
    if ps.len() == 1 {
        assert(q.skip(1) =~= seq![x]);
        assert(join(q.skip(1)) == x);
        assert(q[0] == ps[0]);
        assert(join(q) =~= join(ps) + seq![','] + x);
    } else {
        assert(q.skip(1) =~= ps.skip(1).push(x));
        lemma_join_push(ps.skip(1), x);
        assert(join(q) =~= join(ps) + seq![','] + x);
    }
}

/// Reading the joined addresses back gives the addresses.
proof fn lemma_fields_join(ps: Seq<Seq<char>>)
    requires
        forall|i: int| 0 <= i < ps.len() ==> plain_addr(#[trigger] ps[i]),
    ensures
        fields(join(ps)) == ps,
    decreases ps.len(),
{
    if ps.len() == 1 {
        lemma_pieces_single(ps[0]);
        assert(fields(join(ps)) =~= ps);
    } else if ps.len() > 1 {
        let rest = ps.skip(1);
        assert forall|i: int| 0 <= i < rest.len() implies plain_addr(#[trigger] rest[i]) by {
            assert(rest[i] == ps[i + 1]);
        }
        lemma_fields_join(rest);
        assert(ps[0].len() > 0 && !ps[0].contains(',')) by {
            assert(plain_addr(ps[0]));
        }
        lemma_pieces_split(ps[0], join(rest));
        assert(join(ps).len() > 0);
        assert(join(rest).len() > 0) by {
            assert(plain_addr(rest[0]));
            if rest.len() > 1 {
                assert(join(rest) == rest[0] + seq![','] + join(rest.skip(1)));
            }
        }
        assert(fields(join(ps)) =~= ps);
    }
}

/// Merging keeps what was known and adds every merged address but the own one.
proof fn lemma_merge_contains(
    peers: Seq<Seq<char>>,
    own: Seq<char>,
    addrs: Seq<Seq<char>>,
    x: Seq<char>,
)
    requires
        peers.contains(x) || (addrs.contains(x) && x != own),
    ensures
        merge_spec(peers, own, addrs).contains(x),
    decreases addrs.len(),
{
    if addrs.len() > 0 {
        let init = addrs.drop_last();
        let m = merge_spec(peers, own, init);
        let in_init = peers.contains(x) || (init.contains(x) && x != own);
        if !in_init {
            let j = choose|j: int| 0 <= j < addrs.len() && addrs[j] == x;
            if j < init.len() {
                assert(init[j] == x);
            }
            assert(addrs.last() == x);
            if !m.contains(x) {
                let a = add_spec(m, own, x);
                assert(a[a.len() - 1] == x);
            }
        } else {
            lemma_merge_contains(peers, own, init, x);
            let j = choose|j: int| 0 <= j < m.len() && m[j] == x;
            assert(add_spec(m, own, addrs.last())[j] == x);
        }
    }
}

proof fn lemma_filter_contains(s: Seq<Seq<char>>, pred: spec_fn(Seq<char>) -> bool, x: Seq<char>)
    ensures
        s.filter(pred).contains(x) <==> s.contains(x) && pred(x),
    decreases s.len(),
{
    reveal(Seq::filter);
    if s.len() > 0 {
        let init = s.drop_last();
        lemma_filter_contains(init, pred, x);
        let f = init.filter(pred);
        if f.contains(x) {
            let j = choose|j: int| 0 <= j < f.len() && f[j] == x;
            assert(s.filter(pred)[j] == x);
        }
        if s.contains(x) && pred(x) {
            let j = choose|j: int| 0 <= j < s.len() && s[j] == x;
            if j < init.len() {
                assert(init[j] == x);
            } else {
                assert(s.filter(pred)[s.filter(pred).len() - 1] == x);
            }
        }
        if s.filter(pred).contains(x) && !f.contains(x) {
            assert(s.last() == x);
        }
        if init.contains(x) {
            let j = choose|j: int| 0 <= j < init.len() && init[j] == x;
            assert(s[j] == x);
        }
    }
}

proof fn lemma_unacked_contains(targets: Seq<Seq<char>>, acked: Seq<bool>, i: int)
    requires
        0 <= i < targets.len(),
        targets.len() <= acked.len(),
        !acked[i],
    ensures
        unacked(targets, acked).contains(targets[i]),
    decreases targets.len(),
{
    let n = targets.len() - 1;
    let init = unacked(targets.take(n), acked);
    if i == n {
        assert(unacked(targets, acked)[init.len() as int] == targets[i]);
    } else {
        lemma_unacked_contains(targets.take(n), acked, i);
        let j = choose|j: int| 0 <= j < init.len() && init[j] == targets[i];
        if acked[n] {
        } else {
            assert(unacked(targets, acked)[j] == targets[i]);
        }
    }
}

/// The peers to probe: every known address but the agent's own.
pub fn ping_targets(dir: &PeerDirectory) -> (r: Vec<String>)
    ensures
        strings_view(r@) == others(dir@, dir.own_addr()),
{
    let snap = dir.snapshot();
    let own = dir.own();
    let ghost own_v = dir.own_addr();
    let ghost pred = not_own(own_v);
    let mut r: Vec<String> = Vec::new();
    let mut i: usize = 0;
    while i < snap.len()
        invariant
            i <= snap.len(),
            strings_view(snap@) == dir@,
            own@ == dir.own_addr(),
            own_v == dir.own_addr(),
            pred == not_own(own_v),
            strings_view(r@) == dir@.take(i as int).filter(pred),
        decreases snap.len() - i,
    {
        let ghost prev = r@;
        assert(dir@[i as int] == snap@[i as int]@);
        if snap[i] != *own {
            r.push(snap[i].clone());
            assert(strings_view(r@) =~= strings_view(prev).push(dir@[i as int]));
        }
        proof {
            reveal(Seq::filter);
            assert(dir@.take(i as int + 1).drop_last() =~= dir@.take(i as int));
            assert(dir@.take(i as int + 1).last() == dir@[i as int]);
        }
        i = i + 1;
    }
    assert(dir@.take(i as int) =~= dir@);
    r
}

/// The addresses joined with commas.
pub fn join_addrs(ps: &Vec<String>) -> (r: String)
    ensures
        r@ == join(strings_view(ps@)),
{
    let mut r = String::new();
    if ps.len() == 0 {
        return r;
    }
    r.append(ps[0].as_str());
    assert(strings_view(ps@).take(1) =~= seq![ps@[0]@]);
    let mut i: usize = 1;
    while i < ps.len()
        invariant
            1 <= i <= ps.len(),
            r@ == join(strings_view(ps@).take(i as int)),
        decreases ps.len() - i,
    {
        proof {
            reveal_strlit(",");
            assert(",".view() =~= seq![',']);
            lemma_join_push(strings_view(ps@).take(i as int), ps@[i as int]@);
            assert(strings_view(ps@).take(i as int + 1) =~= strings_view(ps@).take(i as int).push(
                ps@[i as int]@,
            ));
        }
        r.append(",");
        r.append(ps[i].as_str());
        i = i + 1;
    }
    assert(strings_view(ps@).take(i as int) =~= strings_view(ps@));
    r
}

/// The probe of one round: a gossip that carries the whole directory.
pub fn gossip(dir: &PeerDirectory) -> (r: Msg)
    ensures
        r@ == MsgView::Ping(join(dir@)),
{
    let snap = dir.snapshot();
    Msg::Ping(join_addrs(&snap))
}

/// The targets whose probe got no acknowledgement.
pub fn dead_peers(targets: &Vec<String>, acked: &Vec<bool>) -> (r: Vec<String>)
    requires
        targets.len() == acked.len(),
    ensures
        strings_view(r@) == unacked(strings_view(targets@), acked@),
{
    let mut r: Vec<String> = Vec::new();
    let mut i: usize = 0;
    while i < targets.len()
        invariant
            i <= targets.len(),
            targets.len() == acked.len(),
            strings_view(r@) == unacked(strings_view(targets@).take(i as int), acked@),
        decreases targets.len() - i,
    {
        let ghost prev = r@;
        let ghost t = strings_view(targets@);
        assert(t.take(i as int + 1).take(i as int) =~= t.take(i as int));
        if !acked[i] {
            r.push(targets[i].clone());
            assert(strings_view(r@) =~= strings_view(prev).push(t[i as int]));
        }
        i = i + 1;
    }
    assert(strings_view(targets@).take(i as int) =~= strings_view(targets@));
    r
}

/// End a probe round: forget every target that did not acknowledge, and tell
/// whether the prober goes on (it stops once the directory is empty).
pub fn finish_round(dir: &mut PeerDirectory, targets: &Vec<String>, acked: &Vec<bool>) -> (r: bool)
    requires
        old(dir).wf(),
        targets.len() == acked.len(),
    ensures
        final(dir).wf(),
        final(dir).own_addr() == old(dir).own_addr(),
        final(dir)@ == without(old(dir)@, unacked(strings_view(targets@), acked@)),
        r == (final(dir)@.len() > 0),
{
    let dead = dead_peers(targets, acked);
    dir.remove_all(&dead);
    dir.size() > 0
}

/// An agent never probes itself, and never sends itself a broadcast: its own
/// address is not among the targets.
pub proof fn lemma_self_excluded(peers: Seq<Seq<char>>, own: Seq<char>)
    ensures
        !others(peers, own).contains(own),
{
    lemma_filter_contains(peers, not_own(own), own);
}

/// A target that did not acknowledge its probe is gone from the directory
/// once the round ends.
pub proof fn lemma_dead_peer_pruned(
    peers: Seq<Seq<char>>,
    targets: Seq<Seq<char>>,
    acked: Seq<bool>,
    i: int,
)
    requires
        targets.len() == acked.len(),
        0 <= i < targets.len(),
        !acked[i],
    ensures
        !without(peers, unacked(targets, acked)).contains(targets[i]),
{
    let dead = unacked(targets, acked);
    lemma_unacked_contains(targets, acked, i);
    lemma_filter_contains(peers, |p: Seq<char>| !dead.contains(p), targets[i]);
}

/// A kill empties the directory and stops the listener; with an empty
/// directory the prober has no one to probe and stops after its round.
pub proof fn lemma_kill_resets(
    peers: Seq<Seq<char>>,
    own: Seq<char>,
    inbox: Seq<Seq<char>>,
    targets: Seq<Seq<char>>,
    acked: Seq<bool>,
)
    ensures
        step_spec(peers, own, inbox, wire(MsgView::Kill)) == (
            Seq::<Seq<char>>::empty(),
            inbox,
            Ok::<ListenerState, ProtocolError>(ListenerState::Terminated),
        ),
        others(Seq::<Seq<char>>::empty(), own).len() == 0,
        without(Seq::<Seq<char>>::empty(), unacked(targets, acked)).len() == 0,
{
    crate::codec::lemma_round_trip(MsgView::Kill);
    reveal(Seq::filter);
}

/// Gossip spreads membership: once an agent has handled another agent's
/// probe, it knows every address that the other knew, its own aside, and
/// still knows every address it knew before.
pub proof fn lemma_gossip_spreads(
    sender: Seq<Seq<char>>,
    receiver: Seq<Seq<char>>,
    own: Seq<char>,
    inbox: Seq<Seq<char>>,
)
    requires
        forall|i: int| 0 <= i < sender.len() ==> plain_addr(#[trigger] sender[i]),
    ensures
        forall|x: Seq<char>|
            receiver.contains(x) || (sender.contains(x) && x != own) ==> step_spec(
                receiver,
                own,
                inbox,
                wire(MsgView::Ping(join(sender))),
            ).0.contains(x),
{
    crate::codec::lemma_round_trip(MsgView::Ping(join(sender)));
    lemma_fields_join(sender);
    assert forall|x: Seq<char>|
        receiver.contains(x) || (sender.contains(x) && x != own) implies step_spec(
        receiver,
        own,
        inbox,
        wire(MsgView::Ping(join(sender))),
    ).0.contains(x) by {
        lemma_merge_contains(receiver, own, sender, x);
    }
}

} // verus!
