use vstd::prelude::*;

verus! {

/// The character sequences held by a list of strings.
pub open spec fn strings_view(v: Seq<String>) -> Seq<Seq<char>> {
    v.map_values(|s: String| s@)
}

/// The directory after adding `addr`: unchanged where `addr` is already known
/// or is the agent's own address, else `addr` is appended.
pub open spec fn add_spec(peers: Seq<Seq<char>>, own: Seq<char>, addr: Seq<char>) -> Seq<Seq<char>> {
    if peers.contains(addr) || addr == own {
        peers
    } else {
        peers.push(addr)
    }
}

/// The directory after adding each of `addrs` in turn.
pub open spec fn merge_spec(peers: Seq<Seq<char>>, own: Seq<char>, addrs: Seq<Seq<char>>) -> Seq<
    Seq<char>,
>
    decreases addrs.len(),
{
    if addrs.len() == 0 {
        peers
    } else {
        add_spec(merge_spec(peers, own, addrs.drop_last()), own, addrs.last())
    }
}

/// The directory with every address of `dead` taken out, the others in their order.
pub open spec fn without(peers: Seq<Seq<char>>, dead: Seq<Seq<char>>) -> Seq<Seq<char>> {
    peers.filter(|p: Seq<char>| !dead.contains(p))
}

/// Whether `x` is among the strings of `v`.
pub fn list_contains(v: &Vec<String>, x: &String) -> (r: bool)
    ensures
        r == strings_view(v@).contains(x@),
{
    let mut i: usize = 0;
    while i < v.len()
        invariant
            i <= v.len(),
            forall|j: int| 0 <= j < i ==> v@[j]@ != x@,
        decreases v.len() - i,
    {
        if v[i] == *x {
            assert(strings_view(v@)[i as int] == x@);
            return true;
        }
        i = i + 1;
    }
    assert(!strings_view(v@).contains(x@)) by {
        if strings_view(v@).contains(x@) {
            let j = choose|j: int| 0 <= j < strings_view(v@).len() && strings_view(v@)[j] == x@;
            assert(v@[j]@ == x@);
        }
    }
    false
}

/// Filtering a sequence without duplicates leaves none.
proof fn lemma_filter_no_duplicates(s: Seq<Seq<char>>, pred: spec_fn(Seq<char>) -> bool)
    requires
        s.no_duplicates(),
    ensures
        s.filter(pred).no_duplicates(),
        forall|x: Seq<char>| s.filter(pred).contains(x) ==> s.contains(x) && pred(x),
    decreases s.len(),
{
    reveal(Seq::filter);
    if s.len() > 0 {
        let init = s.drop_last();
        assert(init.no_duplicates());
        lemma_filter_no_duplicates(init, pred);
        assert forall|x: Seq<char>| init.contains(x) implies s.contains(x) by {
            let j = choose|j: int| 0 <= j < init.len() && init[j] == x;
            assert(s[j] == x);
        }
        assert(!init.contains(s.last())) by {
            if init.contains(s.last()) {
                let j = choose|j: int| 0 <= j < init.len() && init[j] == s.last();
                assert(s[j] == s[s.len() - 1]);
            }
        }
    }
}

/// The set of known peer addresses of one agent, its own address included
/// until the agent leaves.
pub struct PeerDirectory {
    own: String,
    peers: Vec<String>,
}

impl View for PeerDirectory {
    type V = Seq<Seq<char>>;

    closed spec fn view(&self) -> Seq<Seq<char>> {
        strings_view(self.peers@)
    }
}

impl PeerDirectory {
    /// The agent's own address.
    pub closed spec fn own_addr(&self) -> Seq<char> {
        self.own@
    }

    /// No address is held twice.
    pub open spec fn wf(&self) -> bool {
        self@.no_duplicates()
    }

    /// A directory that knows only the agent itself.
    pub fn new(own: String) -> (r: Self)
        ensures
            r.wf(),
            r@ == seq![own@],
            r.own_addr() == own@,
    {
        let mut peers: Vec<String> = Vec::new();
        peers.push(own.clone());
        let r = PeerDirectory { own, peers };
        assert(r@ =~= seq![r.own@]);
        r
    }

    /// The agent's own address.
    pub fn own(&self) -> (r: &String)
        ensures
            r@ == self.own_addr(),
    {
        &self.own
    }

    /// Whether `addr` is known.
    pub fn contains(&self, addr: &String) -> (r: bool)
        ensures
            r == self@.contains(addr@),
    {
        list_contains(&self.peers, addr)
    }

    /// Add a peer, unless it is known already or is the agent itself.
    pub fn add(&mut self, addr: String)
        requires
            old(self).wf(),
        ensures
            final(self).wf(),
            final(self)@ == add_spec(old(self)@, old(self).own_addr(), addr@),
            final(self).own_addr() == old(self).own_addr(),
    {
        let known = self.contains(&addr);
        let is_own = addr == self.own;
        if !known && !is_own {
            let ghost before = self@;
            self.peers.push(addr);
            assert(self@ =~= before.push(addr@));
            assert(self@.no_duplicates()) by {
                assert forall|i: int, j: int|
                    0 <= i < self@.len() && 0 <= j < self@.len() && i != j implies self@[i]
                    != self@[j] by {
                    if i == before.len() as int {
                        assert(before[j] == self@[j]);
                    } else if j == before.len() as int {
                        assert(before[i] == self@[i]);
                    }
                }
            }
        }
    }

    /// Add each of `addrs` in turn, skipping the agent itself and known peers.
    pub fn merge(&mut self, addrs: &Vec<String>)
        requires
            old(self).wf(),
        ensures
            final(self).wf(),
            final(self)@ == merge_spec(old(self)@, old(self).own_addr(), strings_view(addrs@)),
            final(self).own_addr() == old(self).own_addr(),
    {
        let ghost start = self@;
        let mut i: usize = 0;
        while i < addrs.len()
            invariant
                i <= addrs.len(),
                self.wf(),
                self.own_addr() == old(self).own_addr(),
                start == old(self)@,
                self@ == merge_spec(start, self.own_addr(), strings_view(addrs@).take(i as int)),
            decreases addrs.len() - i,
        {
            let ghost seen = strings_view(addrs@).take(i as int);
            let ghost next = strings_view(addrs@).take(i as int + 1);
            assert(next.drop_last() =~= seen);
            self.add(addrs[i].clone());
            i = i + 1;
        }
        assert(strings_view(addrs@).take(i as int) =~= strings_view(addrs@));
    }

    /// Take out every address of `dead` that is known; the rest keep their order.
    pub fn remove_all(&mut self, dead: &Vec<String>)
        requires
            old(self).wf(),
        ensures
            final(self).wf(),
            final(self)@ == without(old(self)@, strings_view(dead@)),
            final(self).own_addr() == old(self).own_addr(),
    {
        let ghost dv = strings_view(dead@);
        let ghost pred = |p: Seq<char>| !dv.contains(p);
        let mut kept: Vec<String> = Vec::new();
        let mut i: usize = 0;
        while i < self.peers.len()
            invariant
                i <= self.peers.len(),
                strings_view(kept@) == self@.take(i as int).filter(pred),
                dv == strings_view(dead@),
                pred == (|p: Seq<char>| !dv.contains(p)),
            decreases self.peers.len() - i,
        {
            let ghost prev = kept@;
            let gone = list_contains(dead, &self.peers[i]);
            assert(self@[i as int] == self.peers@[i as int]@);
            if !gone {
                let c = self.peers[i].clone();
                kept.push(c);
                assert(strings_view(kept@) =~= strings_view(prev).push(self@[i as int]));
            }
            proof {
                reveal(Seq::filter);
                assert(self@.take(i as int + 1).drop_last() =~= self@.take(i as int));
                assert(self@.take(i as int + 1).last() == self@[i as int]);
                assert(gone == dv.contains(self@[i as int]));
            }
            i = i + 1;
        }
        assert(self@.take(i as int) =~= self@);
        proof {
            lemma_filter_no_duplicates(self@, pred);
        }
        self.peers = kept;
    }

    /// Forget every peer, the agent itself included.
    pub fn clear(&mut self)
        ensures
            final(self).wf(),
            final(self)@ == Seq::<Seq<char>>::empty(),
            final(self).own_addr() == old(self).own_addr(),
    {
        self.peers.clear();
        assert(self@ =~= Seq::<Seq<char>>::empty());
    }

    /// A copy of the known addresses, in the directory's order.
    pub fn snapshot(&self) -> (r: Vec<String>)
        ensures
            strings_view(r@) == self@,
    {
        let mut r: Vec<String> = Vec::new();
        let mut i: usize = 0;
        while i < self.peers.len()
            invariant
                i <= self.peers.len(),
                strings_view(r@) == self@.take(i as int),
            decreases self.peers.len() - i,
        {
            let ghost prev = r@;
            let c = self.peers[i].clone();
            r.push(c);
            assert(strings_view(r@) =~= strings_view(prev).push(self@[i as int]));
            assert(self@.take(i as int + 1) =~= self@.take(i as int).push(self@[i as int]));
            i = i + 1;
        }
        assert(self@.take(i as int) =~= self@);
        r
    }

    /// The number of known addresses.
    pub fn size(&self) -> (r: usize)
        ensures
            r == self@.len(),
    {
        self.peers.len()
    }
}

} // verus!
