use vstd::prelude::*;

use crate::chars::str_eq;

verus! {

/// The id-strings of a sequence of peers, element for element.
pub open spec fn str_views(s: Seq<String>) -> Seq<Seq<char>> {
    s.map_values(|x: String| x@)
}

/// Whether some record of `rs` belongs to the peer `p`.
pub open spec fn has_peer(rs: Seq<(Seq<char>, Seq<char>)>, p: Seq<char>) -> bool {
    exists|i: int| 0 <= i < rs.len() && rs[i].0 == p
}

proof fn lemma_contains_push<A>(s: Seq<A>, x: A, q: A)
    ensures
        s.push(x).contains(q) <==> (s.contains(q) || q == x),
{
    if s.push(x).contains(q) {
        let i = choose|i: int| 0 <= i < s.push(x).len() && s.push(x)[i] == q;
        if i < s.len() {
            assert(s[i] == q);
        }
    }
    if s.contains(q) {
        let i = choose|i: int| 0 <= i < s.len() && s[i] == q;
        assert(s.push(x)[i] == q);
    }
    if q == x {
        assert(s.push(x)[s.len() as int] == q);
    }
}

proof fn lemma_contains_remove<A>(s: Seq<A>, idx: int, q: A)
    requires
        0 <= idx < s.len(),
    ensures
        s.remove(idx).contains(q) ==> s.contains(q),
        (s.contains(q) && q != s[idx]) ==> s.remove(idx).contains(q),
{
    if s.remove(idx).contains(q) {
        let i = choose|i: int| 0 <= i < s.remove(idx).len() && s.remove(idx)[i] == q;
        if i < idx {
            assert(s[i] == q);
        } else {
            assert(s[i + 1] == q);
        }
    }
    if s.contains(q) && q != s[idx] {
        let i = choose|i: int| 0 <= i < s.len() && s[i] == q;
        if i < idx {
            assert(s.remove(idx)[i] == q);
        } else {
            assert(s.remove(idx)[i - 1] == q);
        }
    }
}

/// What this peer knows of the local network: the discovery records, one per
/// live (peer, address) pair, and the broadcast partial view derived from
/// them. A peer stands in the partial view exactly as long as at least one of
/// its addresses is live, so a multi-homed peer survives the expiry of a
/// single address.
pub struct DiscoveryState {
    records: Vec<(String, String)>,
    peers: Vec<String>,
}

impl DiscoveryState {
    /// The live (peer, address) records.
    pub closed spec fn records_v(&self) -> Seq<(Seq<char>, Seq<char>)> {
        self.records@.map_values(|p: (String, String)| (p.0@, p.1@))
    }

    /// The broadcast partial view.
    pub closed spec fn peers_v(&self) -> Seq<Seq<char>> {
        str_views(self.peers@)
    }

    /// The partial view lists, once each, exactly the peers that own a live
    /// record.
    pub closed spec fn wf(&self) -> bool {
        &&& forall|i: int| 0 <= i < self.peers_v().len() ==> has_peer(
            self.records_v(),
            #[trigger] self.peers_v()[i],
        )
        &&& forall|i: int| 0 <= i < self.records_v().len() ==> self.peers_v().contains(
            (#[trigger] self.records_v()[i]).0,
        )
        &&& forall|i: int, j: int| 0 <= i < j < self.peers_v().len() ==> self.peers_v()[i]
            != self.peers_v()[j]
        &&& forall|i: int, j: int| 0 <= i < j < self.records_v().len() ==> self.records_v()[i]
            != self.records_v()[j]
    }

    /// A view with no known peers.
    pub fn new() -> (r: DiscoveryState)
        ensures
            r.wf(),
            r.records_v() == Seq::<(Seq<char>, Seq<char>)>::empty(),
            r.peers_v() == Seq::<Seq<char>>::empty(),
    {
        let r = DiscoveryState { records: Vec::new(), peers: Vec::new() };
        proof {
            assert(r.records_v() =~= Seq::<(Seq<char>, Seq<char>)>::empty());
            assert(r.peers_v() =~= Seq::<Seq<char>>::empty());
        }
        r
    }

    /// The broadcast partial view, as owned id-strings.
    pub fn view_peers(&self) -> (r: Vec<String>)
        ensures
            str_views(r@) == self.peers_v(),
    {
        let n = self.peers.len();
        let mut r: Vec<String> = Vec::new();
        let mut i: usize = 0;
        while i < n
            invariant
                0 <= i <= n,
                n == self.peers@.len(),
                str_views(r@) == self.peers_v().take(i as int),
            decreases n - i,
        {
            let ghost rv0 = r@;
            r.push(self.peers[i].clone());
            proof {
                assert(str_views(r@) =~= str_views(rv0).push(r@[rv0.len() as int]@));
                assert(self.peers_v().take(i + 1) =~= self.peers_v().take(i as int).push(
                    self.peers_v()[i as int],
                ));
                assert(r@[rv0.len() as int]@ == self.peers@[i as int]@);
                assert(str_views(r@) =~= self.peers_v().take(i + 1));
            }
            i += 1;
        }
        proof {
            assert(self.peers_v().take(n as int) =~= self.peers_v());
        }
        r
    }

    fn record_index(&self, peer: &String, addr: &String) -> (r: Option<usize>)
        ensures
            r matches Some(i) ==> i < self.records@.len() && self.records_v()[i as int] == (
                peer@,
                addr@,
            ),
            r is None ==> !self.records_v().contains((peer@, addr@)),
    {
        let n = self.records.len();
        let mut i: usize = 0;
        while i < n
            invariant
                0 <= i <= n,
                n == self.records@.len(),
                forall|j: int| 0 <= j < i ==> (#[trigger] self.records_v()[j]) != (peer@, addr@),
            decreases n - i,
        {
            if str_eq(self.records[i].0.as_str(), peer.as_str()) && str_eq(
                self.records[i].1.as_str(),
                addr.as_str(),
            ) {
                return Some(i);
            }
            i += 1;
        }
        proof {
            if self.records_v().contains((peer@, addr@)) {
                let j = choose|j: int|
                    0 <= j < self.records_v().len() && self.records_v()[j] == (peer@, addr@);
                assert(false);
            }
        }
        None
    }

    fn peer_index(&self, peer: &String) -> (r: Option<usize>)
        ensures
            r matches Some(i) ==> i < self.peers@.len() && self.peers_v()[i as int] == peer@,
            r is None ==> !self.peers_v().contains(peer@),
    {
        let n = self.peers.len();
        let mut i: usize = 0;
        while i < n
            invariant
                0 <= i <= n,
                n == self.peers@.len(),
                forall|j: int| 0 <= j < i ==> (#[trigger] self.peers_v()[j]) != peer@,
            decreases n - i,
        {
            if str_eq(self.peers[i].as_str(), peer.as_str()) {
                return Some(i);
            }
            i += 1;
        }
        proof {
            if self.peers_v().contains(peer@) {
                let j = choose|j: int|
                    0 <= j < self.peers_v().len() && self.peers_v()[j] == peer@;
                assert(false);
            }
        }
        None
    }

    fn record_with_peer(&self, peer: &String) -> (r: bool)
        ensures
            r == has_peer(self.records_v(), peer@),
    {
        let n = self.records.len();
        let mut i: usize = 0;
        while i < n
            invariant
                0 <= i <= n,
                n == self.records@.len(),
                forall|j: int| 0 <= j < i ==> (#[trigger] self.records_v()[j]).0 != peer@,
            decreases n - i,
        {
            if str_eq(self.records[i].0.as_str(), peer.as_str()) {
                proof {
                    assert(self.records_v()[i as int].0 == peer@);
                }
                return true;
            }
            i += 1;
        }
        proof {
            if has_peer(self.records_v(), peer@) {
                let j = choose|j: int|
                    0 <= j < self.records_v().len() && self.records_v()[j].0 == peer@;
                assert(false);
            }
        }
        false
    }

    /// A peer was seen at an address: the record is added (once), and the
    /// peer joins the broadcast partial view if it was not in it yet.
    pub fn on_discovered(&mut self, peer: String, addr: String)
        requires
            old(self).wf(),
        ensures
            final(self).wf(),
            forall|q: (Seq<char>, Seq<char>)| #[trigger] final(self).records_v().contains(q) <==> (
            old(self).records_v().contains(q) || q == (peer@, addr@)),
            forall|q: Seq<char>| #[trigger] final(self).peers_v().contains(q) <==> (old(
                self,
            ).peers_v().contains(q) || q == peer@),
    {
        let ghost rv0 = self.records_v();
        let ghost pv0 = self.peers_v();
        if let Some(_) = self.record_index(&peer, &addr) {
            proof {
                assert(rv0.contains((peer@, addr@)));
                assert(pv0.contains(peer@));
            }
            return;
        }
        match self.peer_index(&peer) {
            Some(_) => {},
            None => {
                self.peers.push(peer.clone());
                proof {
                    assert(self.peers_v() =~= pv0.push(peer@));
                }
            },
        }
        let ghost pv1 = self.peers_v();
        self.records.push((peer, addr));
        proof {
            let pr = (self.records@[self.records@.len() - 1].0@, self.records@[self.records@.len()
                - 1].1@);
            assert(self.records_v() =~= rv0.push(pr));
            assert forall|q: (Seq<char>, Seq<char>)| #[trigger] self.records_v().contains(q) <==> (
            rv0.contains(q) || q == pr) by {
                lemma_contains_push(rv0, pr, q);
            };
            assert forall|q: Seq<char>| #[trigger] self.peers_v().contains(q) <==> (pv0.contains(q)
                || q == pr.0) by {
                if pv1 != pv0 {
                    lemma_contains_push(pv0, pr.0, q);
                }
                if pv0.contains(pr.0) {
                }
            };
            assert forall|i: int| 0 <= i < self.peers_v().len() implies has_peer(
                self.records_v(),
                #[trigger] self.peers_v()[i],
            ) by {
                if i < pv0.len() {
                    assert(pv0[i] == self.peers_v()[i]);
                    let j = choose|j: int| 0 <= j < rv0.len() && rv0[j].0 == pv0[i];
                    assert(self.records_v()[j].0 == self.peers_v()[i]);
                } else {
                    assert(self.peers_v()[i] == pr.0);
                    assert(self.records_v()[rv0.len() as int].0 == pr.0);
                }
            };
            assert forall|i: int| 0 <= i < self.records_v().len() implies self.peers_v().contains(
                (#[trigger] self.records_v()[i]).0,
            ) by {
                if i < rv0.len() {
                    assert(self.records_v()[i] == rv0[i]);
                }
            };
        }
    }

    /// A (peer, address) record expired: the record goes away, and the peer
    /// leaves the broadcast partial view only when none of its other
    /// addresses is still live.
    pub fn on_expired(&mut self, peer: &String, addr: &String)
        requires
            old(self).wf(),
        ensures
            final(self).wf(),
            forall|q: (Seq<char>, Seq<char>)| #[trigger] final(self).records_v().contains(q) <==> (
            old(self).records_v().contains(q) && q != (peer@, addr@)),
            forall|q: Seq<char>| q != peer@ ==> (#[trigger] final(self).peers_v().contains(q) <==>
            old(self).peers_v().contains(q)),
            final(self).peers_v().contains(peer@) <==> (old(self).peers_v().contains(peer@)
                && has_peer(final(self).records_v(), peer@)),
    {
        let ghost rv0 = self.records_v();
        let ghost pv0 = self.peers_v();
        let idx = match self.record_index(peer, addr) {
            Some(i) => i,
            None => {
                proof {
                    assert forall|q: (Seq<char>, Seq<char>)| #[trigger]
                        self.records_v().contains(q) implies q != (peer@, addr@) by {}
                }
                return;
            },
        };
        self.records.remove(idx);
        proof {
            assert(self.records_v() =~= rv0.remove(idx as int));
            assert forall|q: (Seq<char>, Seq<char>)| #[trigger] self.records_v().contains(q) <==> (
            rv0.contains(q) && q != (peer@, addr@)) by {
                lemma_contains_remove(rv0, idx as int, q);
                if self.records_v().contains(q) {
                    let i = choose|i: int|
                        0 <= i < self.records_v().len() && self.records_v()[i] == q;
                    if i < idx {
                        assert(rv0[i] == q);
                    } else {
                        assert(rv0[i + 1] == q);
                        assert(rv0[i + 1] != rv0[idx as int]);
                    }
                }
            };
        }
        let ghost rv1 = self.records_v();
        if !self.record_with_peer(peer) {
            match self.peer_index(peer) {
                Some(p_idx) => {
                    self.peers.remove(p_idx);
                    proof {
                        assert(self.peers_v() =~= pv0.remove(p_idx as int));
                        assert forall|q: Seq<char>| q != peer@ implies (#[trigger]
                        self.peers_v().contains(q) <==> pv0.contains(q)) by {
                            lemma_contains_remove(pv0, p_idx as int, q);
                        };
                        if self.peers_v().contains(peer@) {
                            let i = choose|i: int|
                                0 <= i < self.peers_v().len() && self.peers_v()[i] == peer@;
                            if i < p_idx {
                                assert(pv0[i] == peer@);
                                assert(false);
                            } else {
                                assert(pv0[i + 1] == peer@);
                                assert(false);
                            }
                        }
                        assert forall|i: int| 0 <= i < self.peers_v().len() implies has_peer(
                            self.records_v(),
                            #[trigger] self.peers_v()[i],
                        ) by {
                            assert(pv0.contains(self.peers_v()[i]));
                            let j = choose|j: int|
                                0 <= j < pv0.len() && pv0[j] == self.peers_v()[i];
                            let k = choose|k: int|
                                0 <= k < rv0.len() && rv0[k].0 == self.peers_v()[i];
                            assert(self.peers_v()[i] != peer@);
                            assert(rv0[k] != (peer@, addr@));
                            assert(rv1.contains(rv0[k]));
                            let t = choose|t: int| 0 <= t < rv1.len() && rv1[t] == rv0[k];
                            assert(rv1[t].0 == self.peers_v()[i]);
                        };
                        assert forall|i: int| 0 <= i < self.records_v().len() implies self
                            .peers_v().contains((#[trigger] self.records_v()[i]).0) by {
                            assert(rv0.contains(rv1[i]));
                            assert(rv1[i].0 != peer@);
                            let j = choose|j: int| 0 <= j < rv0.len() && rv0[j] == rv1[i];
                            assert(pv0.contains(rv0[j].0));
                            lemma_contains_remove(pv0, p_idx as int, rv1[i].0);
                        };
                    }
                },
                None => {},
            }
        } else {
            proof {
                assert forall|i: int| 0 <= i < self.peers_v().len() implies has_peer(
                    self.records_v(),
                    #[trigger] self.peers_v()[i],
                ) by {
                    let p = self.peers_v()[i];
                    if p == peer@ {
                        assert(has_peer(rv1, peer@));
                    } else {
                        let k = choose|k: int| 0 <= k < rv0.len() && rv0[k].0 == p;
                        assert(rv0[k] != (peer@, addr@));
                        assert(rv1.contains(rv0[k]));
                        let t = choose|t: int| 0 <= t < rv1.len() && rv1[t] == rv0[k];
                        assert(rv1[t].0 == p);
                    }
                };
                assert forall|i: int| 0 <= i < self.records_v().len() implies self
                    .peers_v().contains((#[trigger] self.records_v()[i]).0) by {
                    assert(rv0.contains(rv1[i]));
                    let j = choose|j: int| 0 <= j < rv0.len() && rv0[j] == rv1[i];
                };
                assert(self.peers_v().contains(peer@) <==> (pv0.contains(peer@) && has_peer(
                    rv1,
                    peer@,
                ))) by {
                    if pv0.contains(peer@) {
                    }
                    if self.peers_v().contains(peer@) {
                        let k = choose|k: int| 0 <= k < rv1.len() && rv1[k].0 == peer@;
                    }
                };
            }
        }
    }
}

/// The discovered-peer snapshot with duplicate id-strings removed: each peer
/// appears once, and exactly the peers of the input appear.
pub fn dedup_peers(peers: &Vec<String>) -> (r: Vec<String>)
    ensures
        forall|i: int, j: int| 0 <= i < j < str_views(r@).len() ==> str_views(r@)[i] != str_views(
            r@,
        )[j],
        forall|q: Seq<char>| #[trigger] str_views(r@).contains(q) <==> str_views(
            peers@,
        ).contains(q),
{
    let n = peers.len();
    let mut r: Vec<String> = Vec::new();
    let mut i: usize = 0;
    while i < n
        invariant
            0 <= i <= n,
            n == peers@.len(),
            forall|a: int, b: int| 0 <= a < b < str_views(r@).len() ==> str_views(r@)[a]
                != str_views(r@)[b],
            forall|q: Seq<char>| #[trigger] str_views(r@).contains(q) <==> str_views(
                peers@,
            ).take(i as int).contains(q),
        decreases n - i,
    {
        let ghost rv0 = str_views(r@);
        let mut seen = false;
        let mut t: usize = 0;
        let rn = r.len();
        while t < rn
            invariant
                0 <= t <= rn,
                rn == r@.len(),
                seen ==> str_views(r@).contains(peers@[i as int]@),
                !seen ==> forall|j: int| 0 <= j < t ==> (#[trigger] str_views(r@)[j]) != peers@[
                    i as int
                ]@,
                i < n,
                n == peers@.len(),
            decreases rn - t,
        {
            if str_eq(r[t].as_str(), peers[i].as_str()) {
                proof {
                    assert(str_views(r@)[t as int] == peers@[i as int]@);
                }
                seen = true;
                t = rn;
            } else {
                t += 1;
            }
        }
        if !seen {
            r.push(peers[i].clone());
            proof {
                assert(str_views(r@) =~= rv0.push(peers@[i as int]@));
            }
        }
        proof {
            let pv = peers@[i as int]@;
            assert(str_views(peers@).take(i + 1) =~= str_views(peers@).take(i as int).push(pv));
            assert forall|q: Seq<char>| #[trigger] str_views(r@).contains(q) <==> str_views(
                peers@,
            ).take(i + 1).contains(q) by {
                lemma_contains_push(str_views(peers@).take(i as int), pv, q);
                if !seen {
                    lemma_contains_push(rv0, pv, q);
                }
            };
            assert forall|a: int, b: int|
                0 <= a < b < str_views(r@).len() implies str_views(r@)[a] != str_views(
                r@,
            )[b] by {
                if !seen && b == str_views(r@).len() - 1 && rv0.len() < str_views(r@).len() {
                    assert(str_views(r@)[a] == rv0[a]);
                }
            };
        }
        i += 1;
    }
    proof {
        assert(str_views(peers@).take(n as int) =~= str_views(peers@));
    }
    r
}

} // verus!
