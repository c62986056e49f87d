use vstd::prelude::*;
use crate::mode::str_eq;
use crate::seen::{bytes_eq, MessageId, SeenSet};

verus! {

/// The peers this node floods a topic's messages to: every peer that
/// discovery reports, each listed once, in the order they were added.
pub struct PartialView {
    peers: Vec<Vec<u8>>,
}

impl PartialView {
    /// The peers, in the order they were added.
    pub closed spec fn peers(&self) -> Seq<Seq<u8>> {
        self.peers@.map_values(|p: Vec<u8>| p@)
    }

    pub closed spec fn wf(&self) -> bool {
        self.peers().no_duplicates()
    }

    pub fn new() -> (r: PartialView)
        ensures
            r.wf(),
            r.peers() == Seq::<Seq<u8>>::empty(),
    {
        let r = PartialView { peers: Vec::new() };
        assert(r.peers() =~= Seq::<Seq<u8>>::empty());
        r
    }

    pub fn len(&self) -> (r: usize)
        ensures
            r == self.peers().len(),
    {
        self.peers.len()
    }

    fn index_of(&self, peer: &Vec<u8>) -> (r: Option<usize>)
        ensures
            r matches Some(i) ==> i < self.peers().len() && self.peers()[i as int] == peer@,
            r is None ==> !self.peers().contains(peer@),
    {
        let mut i: usize = 0;
        while i < self.peers.len()
            invariant
                i <= self.peers@.len(),
                forall|j: int| 0 <= j < i ==> self.peers()[j] != peer@,
            decreases self.peers.len() - i,
        {
            if bytes_eq(&self.peers[i], peer) {
                return Some(i);
            }
            i = i + 1;
        }
        proof {
            if self.peers().contains(peer@) {
                let k = choose|k: int| 0 <= k < self.peers().len() && self.peers()[k] == peer@;
                assert(self.peers()[k] != peer@);
            }
        }
        None
    }

    /// Whether `peer` is in the view.
    pub fn contains(&self, peer: &Vec<u8>) -> (r: bool)
        ensures
            r == self.peers().contains(peer@),
    {
        self.index_of(peer).is_some()
    }

    /// Adds `peer`; returns whether it was not yet there.
    pub fn add(&mut self, peer: Vec<u8>) -> (added: bool)
        requires
            old(self).wf(),
        ensures
            final(self).wf(),
            added == !old(self).peers().contains(peer@),
            added ==> final(self).peers() == old(self).peers().push(peer@),
            !added ==> final(self).peers() == old(self).peers(),
    {
        if self.contains(&peer) {
            return false;
        }
        let ghost before = self.peers();
        let ghost pv = peer@;
        self.peers.push(peer);
        assert(self.peers() =~= before.push(pv));
        proof {
            assert forall|i: int, j: int|
                0 <= i < self.peers().len() && 0 <= j < self.peers().len() && i != j
                implies self.peers()[i] != self.peers()[j] by {
                if i < before.len() && j < before.len() {
                } else if i == before.len() {
                    assert(before.contains(before[j]));
                } else {
                    assert(before.contains(before[i]));
                }
            }
        }
        true
    }

    /// Removes `peer`; returns whether it was there.
    pub fn remove(&mut self, peer: &Vec<u8>) -> (removed: bool)
        requires
            old(self).wf(),
        ensures
            final(self).wf(),
            removed == old(self).peers().contains(peer@),
            !removed ==> final(self).peers() == old(self).peers(),
            removed ==> exists|i: int|
                0 <= i < old(self).peers().len() && old(self).peers()[i] == peer@
                    && final(self).peers() == old(self).peers().remove(i),
            final(self).peers().to_set() == old(self).peers().to_set().remove(peer@),
    {
        let ghost before = self.peers();
        match self.index_of(peer) {
            None => {
                proof {
                    assert(before.to_set() =~= before.to_set().remove(peer@));
                }
                false
            },
            Some(i) => {
                self.peers.remove(i);
                assert(self.peers() =~= before.remove(i as int));
                assert(before[i as int] == peer@);
                proof {
                    assert forall|x: Seq<u8>|
                        #[trigger] self.peers().to_set().contains(x) <==> before.to_set().remove(
                            peer@,
                        ).contains(x) by {
                        if self.peers().contains(x) {
                            let k = choose|k: int|
                                0 <= k < self.peers().len() && self.peers()[k] == x;
                            if k < i {
                                assert(before[k] == x);
                            } else {
                                assert(before[k + 1] == x);
                            }
                        }
                        if x != peer@ && before.contains(x) {
                            let k = choose|k: int| 0 <= k < before.len() && before[k] == x;
                            if k < i {
                                assert(self.peers()[k] == x);
                            } else {
                                assert(self.peers()[k - 1] == x);
                            }
                        }
                    }
                    assert(self.peers().to_set() =~= before.to_set().remove(peer@));
                }
                true
            },
        }
    }
}

/// A message as the flood layer handed it over.
pub struct ReceivedMessage {
    pub source: Vec<u8>,
    pub seqno: Vec<u8>,
    pub topics: Vec<String>,
    pub data: Vec<u8>,
}

/// A message to show the user: who published it, and its payload.
pub struct Delivery {
    pub source: Vec<u8>,
    pub data: Vec<u8>,
}

/// A peer whose discovery record expired; `still_known` tells whether
/// discovery still holds another record of it.
pub struct ExpiredPeer {
    pub peer: Vec<u8>,
    pub still_known: bool,
}

/// Whether one of `topics` is `topic`.
pub open spec fn names_topic(topics: Seq<String>, topic: Seq<char>) -> bool {
    exists|i: int| 0 <= i < topics.len() && #[trigger] topics[i]@ == topic
}

/// The peer identifiers in a discovery report.
pub open spec fn peer_set(peers: Seq<Vec<u8>>) -> Set<Seq<u8>> {
    Set::new(|p: Seq<u8>| exists|i: int| 0 <= i < peers.len() && #[trigger] peers[i]@ == p)
}

/// Appending a peer to a report adds its identifier to the report's set.
pub proof fn lemma_peer_set_push(s: Seq<Vec<u8>>, v: Vec<u8>)
    ensures
        peer_set(s.push(v)) == peer_set(s).insert(v@),
{
    let t = s.push(v);
    assert forall|x: Seq<u8>| peer_set(t).contains(x) implies peer_set(s).insert(v@).contains(x) by {
        let j = choose|j: int| 0 <= j < t.len() && #[trigger] t[j]@ == x;
        if j < s.len() {
            assert(s[j]@ == x);
        }
    }
    assert forall|x: Seq<u8>| peer_set(s).insert(v@).contains(x) implies peer_set(t).contains(x) by {
        if x == v@ {
            assert(t[s.len() as int]@ == x);
        } else {
            let j = choose|j: int| 0 <= j < s.len() && #[trigger] s[j]@ == x;
            assert(t[j]@ == x);
        }
    }
    assert(peer_set(t) =~= peer_set(s).insert(v@));
}

/// The peers that an expiry report says are gone for good.
pub open spec fn gone_set(expired: Seq<ExpiredPeer>) -> Set<Seq<u8>> {
    Set::new(
        |p: Seq<u8>|
            exists|i: int|
                0 <= i < expired.len() && #[trigger] expired[i].peer@ == p
                    && !expired[i].still_known,
    )
}

/// The decisions of a chat node on one topic: which received messages reach
/// the user (each message once), and which peers it floods to.
pub struct ChatNode {
    topic: String,
    seen: SeenSet,
    view: PartialView,
}

impl ChatNode {
    pub closed spec fn topic_view(&self) -> Seq<char> {
        self.topic@
    }

    pub closed spec fn seen_ids(&self) -> Seq<(Seq<u8>, Seq<u8>)> {
        self.seen.ids()
    }

    pub closed spec fn window(&self) -> nat {
        self.seen.cap()
    }

    pub closed spec fn targets(&self) -> Set<Seq<u8>> {
        self.view.peers().to_set()
    }

    pub closed spec fn wf(&self) -> bool {
        self.seen.wf() && self.view.wf()
    }

    /// A well-formed node remembers at least one message.
    pub proof fn lemma_window_positive(&self)
        requires
            self.wf(),
        ensures
            self.window() >= 1,
    {
        self.seen.lemma_cap_positive();
    }

    /// A node subscribed to `topic` that remembers the last `window` messages
    /// (at least one) to suppress duplicates.
    pub fn new(topic: String, window: usize) -> (r: ChatNode)
        ensures
            r.wf(),
            r.topic_view() == topic@,
            r.seen_ids() == Seq::<(Seq<u8>, Seq<u8>)>::empty(),
            r.window() == if window == 0 { 1 } else { window as nat },
            r.targets() == Set::<Seq<u8>>::empty(),
    {
        let r = ChatNode { topic, seen: SeenSet::new(window), view: PartialView::new() };
        assert(r.targets() =~= Set::<Seq<u8>>::empty());
        r
    }

    /// The topic the node chats on.
    pub fn topic(&self) -> (r: &str)
        ensures
            r@ == self.topic_view(),
    {
        self.topic.as_str()
    }

    /// Whether messages are flooded to `peer`.
    pub fn is_target(&self, peer: &Vec<u8>) -> (r: bool)
        ensures
            r == self.targets().contains(peer@),
    {
        self.view.contains(peer)
    }

    /// Decides whether a received message reaches the user. Every message is
    /// recorded in the seen-set; it is delivered only when it was not seen
    /// before and is on the node's topic.
    pub fn on_message(&mut self, m: ReceivedMessage) -> (r: Option<Delivery>)
        requires
            old(self).wf(),
        ensures
            final(self).wf(),
            final(self).topic_view() == old(self).topic_view(),
            final(self).targets() == old(self).targets(),
            final(self).window() == old(self).window(),
            final(self).seen_ids() == crate::seen::observed(
                old(self).seen_ids(),
                (m.source@, m.seqno@),
                old(self).window(),
            ),
            r is Some <==> (!old(self).seen_ids().contains((m.source@, m.seqno@))
                && names_topic(m.topics@, old(self).topic_view())),
            r matches Some(d) ==> d.source@ == m.source@ && d.data@ == m.data@,
    {
        let mut on_topic = false;
        let mut i: usize = 0;
        while i < m.topics.len()
            invariant
                i <= m.topics@.len(),
                on_topic == exists|j: int| 0 <= j < i && #[trigger] m.topics@[j]@ == self.topic@,
            decreases m.topics.len() - i,
        {
            if str_eq(m.topics[i].as_str(), self.topic.as_str()) {
                on_topic = true;
            }
            i = i + 1;
        }
        let ReceivedMessage { source, seqno, topics: _, data } = m;
        let fresh = self.seen.observe(MessageId { source: source.clone(), seqno });
        if fresh && on_topic {
            Some(Delivery { source, data })
        } else {
            None
        }
    }

    /// Takes a discovery report into the flood targets. Returns the peers
    /// that were not targets yet, each once.
    pub fn on_discovered(&mut self, peers: Vec<Vec<u8>>) -> (added: Vec<Vec<u8>>)
        requires
            old(self).wf(),
        ensures
            final(self).wf(),
            final(self).topic_view() == old(self).topic_view(),
            final(self).seen_ids() == old(self).seen_ids(),
            final(self).window() == old(self).window(),
            final(self).targets() == old(self).targets().union(peer_set(peers@)),
            peer_set(added@) == peer_set(peers@).difference(old(self).targets()),
            added@.map_values(|p: Vec<u8>| p@).no_duplicates(),
    {
        let ghost start = self.targets();
        let mut added: Vec<Vec<u8>> = Vec::new();
        let mut i: usize = 0;
        while i < peers.len()
            invariant
                self.wf(),
                i <= peers@.len(),
                self.topic@ == old(self).topic@,
                self.seen == old(self).seen,
                start == old(self).targets(),
                self.targets() == start.union(peer_set(peers@.subrange(0, i as int))),
                peer_set(added@) == peer_set(peers@.subrange(0, i as int)).difference(start),
                added@.map_values(|p: Vec<u8>| p@).no_duplicates(),
                forall|k: int| 0 <= k < added@.len() ==> self.targets().contains(#[trigger] added@[k]@),
            decreases peers.len() - i,
        {
            let p = peers[i].clone();
            let ghost pv = p@;
            let ghost before_added = added@;
            let ghost before_peers = self.view.peers();
            let fresh = self.view.add(p.clone());
            if fresh {
                added.push(p);
            }
            proof {
                assert(peers@.subrange(0, i + 1) =~= peers@.subrange(0, i as int).push(peers@[i as int]));
                assert(peers@[i as int]@ == pv);
                lemma_peer_set_push(peers@.subrange(0, i as int), peers@[i as int]);
                if fresh {
                    assert(self.view.peers() == before_peers.push(pv));
                    assert(self.targets() =~= before_peers.to_set().insert(pv)) by {
                        assert forall|x: Seq<u8>| self.targets().contains(x) <==> before_peers.to_set().insert(pv).contains(x) by {
                            if before_peers.contains(x) {
                                let k = choose|k: int| 0 <= k < before_peers.len() && before_peers[k] == x;
                                assert(self.view.peers()[k] == x);
                            }
                            if self.view.peers().contains(x) {
                                let k = choose|k: int| 0 <= k < self.view.peers().len() && self.view.peers()[k] == x;
                                if k < before_peers.len() {
                                    assert(before_peers[k] == x);
                                }
                            }
                            if x == pv {
                                assert(self.view.peers()[before_peers.len() as int] == x);
                            }
                        }
                    }
                    assert(added@ == before_added.push(p));
                    assert(added@ =~= before_added.push(added@[before_added.len() as int]));
                    lemma_peer_set_push(before_added, added@[before_added.len() as int]);
                    assert(!before_peers.contains(pv));
                    assert(!before_peers.to_set().contains(pv));
                    assert(!start.contains(pv));
                    let mv = added@.map_values(|q: Vec<u8>| q@);
                    let mb = before_added.map_values(|q: Vec<u8>| q@);
                    assert(mv =~= mb.push(pv));
                    assert forall|a: int, b: int| 0 <= a < mv.len() && 0 <= b < mv.len() && a != b implies mv[a] != mv[b] by {
                        if a == before_added.len() {
                            assert(before_peers.to_set().contains(before_added[b]@));
                        } else if b == before_added.len() {
                            assert(before_peers.to_set().contains(before_added[a]@));
                        }
                    }
                } else {
                    assert(before_peers.to_set().contains(pv));
                    assert(self.targets() =~= start.union(peer_set(peers@.subrange(0, i + 1))));
                    assert(peer_set(added@) =~= peer_set(peers@.subrange(0, i + 1)).difference(start));
                }
                assert(self.targets() =~= start.union(peer_set(peers@.subrange(0, i + 1))));
                assert(peer_set(added@) =~= peer_set(peers@.subrange(0, i + 1)).difference(start));
            }
            i = i + 1;
        }
        assert(peers@.subrange(0, peers@.len() as int) =~= peers@);
        added
    }

    /// Takes an expiry report into the flood targets: a peer leaves them
    /// only when discovery holds no other record of it. Returns the peers
    /// that left.
    pub fn on_expired(&mut self, expired: Vec<ExpiredPeer>) -> (removed: Vec<Vec<u8>>)
        requires
            old(self).wf(),
        ensures
            final(self).wf(),
            final(self).topic_view() == old(self).topic_view(),
            final(self).seen_ids() == old(self).seen_ids(),
            final(self).window() == old(self).window(),
            final(self).targets() == old(self).targets().difference(gone_set(expired@)),
            peer_set(removed@) == old(self).targets().intersect(gone_set(expired@)),
    {
        let ghost start = self.targets();
        let mut removed: Vec<Vec<u8>> = Vec::new();
        let mut i: usize = 0;
        while i < expired.len()
            invariant
                self.wf(),
                i <= expired@.len(),
                self.topic@ == old(self).topic@,
                self.seen == old(self).seen,
                start == old(self).targets(),
                self.targets() == start.difference(gone_set(expired@.subrange(0, i as int))),
                peer_set(removed@) == start.intersect(gone_set(expired@.subrange(0, i as int))),
            decreases expired.len() - i,
        {
            let ghost s0 = expired@.subrange(0, i as int);
            let ghost s1 = expired@.subrange(0, i + 1);
            let ghost before_removed = removed@;
            let ghost before_targets = self.targets();
            let e = &expired[i];
            if !e.still_known {
                let gone = self.view.remove(&e.peer);
                if gone {
                    removed.push(e.peer.clone());
                }
            }
            proof {
                let pv = expired@[i as int].peer@;
                assert(s1 =~= s0.push(expired@[i as int]));
                let g1 = if expired@[i as int].still_known { gone_set(s0) } else { gone_set(s0).insert(pv) };
                assert(gone_set(s1) =~= g1) by {
                    assert forall|x: Seq<u8>| gone_set(s1).contains(x) implies g1.contains(x) by {
                        let j = choose|j: int| 0 <= j < s1.len() && #[trigger] s1[j].peer@ == x && !s1[j].still_known;
                        if j < i {
                            assert(s0[j].peer@ == x);
                        }
                    }
                    assert forall|x: Seq<u8>| g1.contains(x) implies gone_set(s1).contains(x) by {
                        if gone_set(s0).contains(x) {
                            let j = choose|j: int| 0 <= j < s0.len() && #[trigger] s0[j].peer@ == x && !s0[j].still_known;
                            assert(s1[j].peer@ == x);
                        } else {
                            assert(s1[i as int].peer@ == x);
                        }
                    }
                }
                if !expired@[i as int].still_known {
                    assert(self.targets() =~= start.difference(gone_set(s1)));
                    if before_targets.contains(pv) {
                        assert(removed@ =~= before_removed.push(removed@[before_removed.len() as int]));
                        assert(removed@[before_removed.len() as int]@ == pv);
                        lemma_peer_set_push(before_removed, removed@[before_removed.len() as int]);
                    }
                    assert(peer_set(removed@) =~= start.intersect(gone_set(s1)));
                } else {
                    assert(self.targets() =~= start.difference(gone_set(s1)));
                    assert(peer_set(removed@) =~= start.intersect(gone_set(s1)));
                }
            }
            i = i + 1;
        }
        assert(expired@.subrange(0, expired@.len() as int) =~= expired@);
        removed
    }
}

} // verus!
