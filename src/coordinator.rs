use vstd::prelude::*;
use crate::holepunch::{consistent, lemma_step_consistent, notice_of, step, LinkEvent, LinkNotice, Phase, PunchSession};
use crate::seen::bytes_eq;

verus! {

/// One remote peer's entry in the coordinator's index.
pub struct PeerLink {
    pub peer: Vec<u8>,
    pub session: PunchSession,
}

/// The map an index of entries stands for; a later entry for a key wins.
pub open spec fn table_map(s: Seq<(Seq<u8>, PunchSession)>) -> Map<Seq<u8>, PunchSession>
    decreases s.len(),
{
    if s.len() == 0 {
        Map::empty()
    } else {
        table_map(s.drop_last()).insert(s.last().0, s.last().1)
    }
}

pub open spec fn keys_unique(s: Seq<(Seq<u8>, PunchSession)>) -> bool {
    forall|i: int, j: int| 0 <= i < s.len() && 0 <= j < s.len() && i != j ==> s[i].0 != s[j].0
}

proof fn lemma_table_dom(s: Seq<(Seq<u8>, PunchSession)>, k: Seq<u8>)
    ensures
        table_map(s).dom().contains(k) <==> exists|i: int| 0 <= i < s.len() && s[i].0 == k,
    decreases s.len(),
{
    if s.len() > 0 {
        let d = s.drop_last();
        lemma_table_dom(d, k);
        if exists|i: int| 0 <= i < s.len() && s[i].0 == k {
            let i = choose|i: int| 0 <= i < s.len() && s[i].0 == k;
            if i < d.len() {
                assert(d[i].0 == k);
            }
        }
        if exists|i: int| 0 <= i < d.len() && d[i].0 == k {
            let i = choose|i: int| 0 <= i < d.len() && d[i].0 == k;
            assert(s[i].0 == k);
        }
    }
}

proof fn lemma_table_update(s: Seq<(Seq<u8>, PunchSession)>, i: int, v: PunchSession)
    requires
        keys_unique(s),
        0 <= i < s.len(),
    ensures
        table_map(s.update(i, (s[i].0, v))) == table_map(s).insert(s[i].0, v),
    decreases s.len(),
{
    let k = s[i].0;
    let u = s.update(i, (k, v));
    let d = s.drop_last();
    if i == s.len() - 1 {
        assert(u.drop_last() =~= d);
        assert(table_map(u) =~= table_map(s).insert(k, v));
    } else {
        assert(u.drop_last() =~= d.update(i, (k, v)));
        assert(d[i].0 == k);
        lemma_table_update(d, i, v);
        assert(s.last().0 != k);
        assert(table_map(u) =~= table_map(s).insert(k, v));
    }
}

proof fn lemma_table_lookup(s: Seq<(Seq<u8>, PunchSession)>, i: int)
    requires
        keys_unique(s),
        0 <= i < s.len(),
    ensures
        table_map(s).dom().contains(s[i].0),
        table_map(s)[s[i].0] == s[i].1,
{
    lemma_table_update(s, i, s[i].1);
    assert(s.update(i, (s[i].0, s[i].1)) =~= s);
}

proof fn lemma_table_remove(s: Seq<(Seq<u8>, PunchSession)>, i: int)
    requires
        keys_unique(s),
        0 <= i < s.len(),
    ensures
        table_map(s.remove(i)) == table_map(s).remove(s[i].0),
    decreases s.len(),
{
    let k = s[i].0;
    let d = s.drop_last();
    if i == s.len() - 1 {
        assert(s.remove(i) =~= d);
        lemma_table_dom(d, k);
        assert(table_map(d) =~= table_map(s).remove(k));
    } else {
        assert(s.remove(i).drop_last() =~= d.remove(i));
        assert(s.remove(i).last() == s.last());
        assert(d[i].0 == k);
        lemma_table_remove(d, i);
        assert(s.last().0 != k);
        assert(table_map(s.remove(i)) =~= table_map(s).remove(k));
    }
}

/// The relay and hole-punch coordinator: one session per remote peer, so at
/// most one attempt is in flight per pair of nodes. Dropping a peer's entry
/// cancels whatever was in progress with it.
pub struct Coordinator {
    links: Vec<PeerLink>,
    punch_window: u64,
}

impl Coordinator {
    pub closed spec fn entries(&self) -> Seq<(Seq<u8>, PunchSession)> {
        self.links@.map_values(|l: PeerLink| (l.peer@, l.session))
    }

    /// The session held for each remote peer.
    pub closed spec fn sessions(&self) -> Map<Seq<u8>, PunchSession> {
        table_map(self.entries())
    }

    /// How long each hole-punch attempt may take.
    pub closed spec fn window(&self) -> u64 {
        self.punch_window
    }

    pub closed spec fn wf(&self) -> bool {
        &&& keys_unique(self.entries())
        &&& forall|i: int| 0 <= i < self.entries().len() ==> consistent(#[trigger] self.entries()[i].1)
        &&& consistent(self.fresh_session())
    }

    /// Every session a well-formed coordinator holds is in a possible state.
    pub proof fn lemma_sessions_consistent(&self, peer: Seq<u8>)
        requires
            self.wf(),
        ensures
            consistent(self.current(peer)),
    {
        lemma_table_dom(self.entries(), peer);
        if self.sessions().dom().contains(peer) {
            let i = choose|i: int| 0 <= i < self.entries().len() && self.entries()[i].0 == peer;
            lemma_table_lookup(self.entries(), i);
        }
    }

    /// The session a peer starts from before any event about it.
    pub open spec fn fresh_session(&self) -> PunchSession {
        PunchSession {
            phase: Phase::Idle,
            relayed: false,
            direct: false,
            reservation_expiry: 0,
            deadline: 0,
            punch_window: self.window(),
        }
    }

    /// The session `peer` is in, or a fresh one if it has none.
    pub open spec fn current(&self, peer: Seq<u8>) -> PunchSession {
        if self.sessions().dom().contains(peer) {
            self.sessions()[peer]
        } else {
            self.fresh_session()
        }
    }

    pub fn new(punch_window: u64) -> (r: Coordinator)
        ensures
            r.wf(),
            r.window() == punch_window,
            r.sessions() == Map::<Seq<u8>, PunchSession>::empty(),
    {
        let r = Coordinator { links: Vec::new(), punch_window };
        assert(r.entries() =~= Seq::<(Seq<u8>, PunchSession)>::empty());
        r
    }

    fn find(&self, peer: &Vec<u8>) -> (r: Option<usize>)
        ensures
            r matches Some(i) ==> i < self.entries().len() && self.entries()[i as int].0 == peer@,
            r is None ==> forall|i: int| 0 <= i < self.entries().len() ==> self.entries()[i].0 != peer@,
    {
        let mut i: usize = 0;
        while i < self.links.len()
            invariant
                i <= self.links@.len(),
                forall|j: int| 0 <= j < i ==> self.entries()[j].0 != peer@,
            decreases self.links.len() - i,
        {
            if bytes_eq(&self.links[i].peer, peer) {
                return Some(i);
            }
            i = i + 1;
        }
        None
    }

    /// The session held for `peer`, if any.
    pub fn session(&self, peer: &Vec<u8>) -> (r: Option<PunchSession>)
        requires
            self.wf(),
        ensures
            r matches Some(s) ==> self.sessions().dom().contains(peer@) && self.sessions()[peer@] == s,
            r is None ==> !self.sessions().dom().contains(peer@),
    {
        proof {
            lemma_table_dom(self.entries(), peer@);
        }
        match self.find(peer) {
            Some(i) => {
                proof {
                    lemma_table_lookup(self.entries(), i as int);
                }
                Some(self.links[i].session)
            },
            None => None,
        }
    }

    /// Applies an event about `peer` to its session (creating one if needed)
    /// and says what to report.
    pub fn handle(&mut self, peer: &Vec<u8>, e: LinkEvent) -> (n: LinkNotice)
        requires
            old(self).wf(),
        ensures
            final(self).wf(),
            final(self).window() == old(self).window(),
            final(self).sessions() == old(self).sessions().insert(
                peer@,
                step(old(self).current(peer@), e),
            ),
            n == notice_of(old(self).current(peer@), step(old(self).current(peer@), e)),
    {
        let ghost before = self.entries();
        proof {
            lemma_table_dom(before, peer@);
            self.lemma_sessions_consistent(peer@);
            lemma_step_consistent(self.current(peer@), e);
        }
        match self.find(peer) {
            Some(i) => {
                proof {
                    lemma_table_lookup(before, i as int);
                    lemma_table_update(before, i as int, step(before[i as int].1, e));
                }
                let mut link = self.links.remove(i);
                let n = link.session.handle(e);
                self.links.insert(i, link);
                assert(self.entries() =~= before.update(i as int, (peer@, step(before[i as int].1, e))));
                n
            },
            None => {
                let mut session = PunchSession::new(self.punch_window);
                let n = session.handle(e);
                self.links.push(PeerLink { peer: peer.clone(), session });
                assert(self.entries() =~= before.push((peer@, session)));
                assert(table_map(self.entries()) == table_map(before).insert(peer@, session)) by {
                    assert(self.entries().drop_last() =~= before);
                }
                n
            },
        }
    }

    /// Forgets `peer`, cancelling any attempt in progress with it; returns
    /// whether it had a session.
    pub fn cancel(&mut self, peer: &Vec<u8>) -> (had: bool)
        requires
            old(self).wf(),
        ensures
            final(self).wf(),
            final(self).window() == old(self).window(),
            had == old(self).sessions().dom().contains(peer@),
            final(self).sessions() == old(self).sessions().remove(peer@),
    {
        let ghost before = self.entries();
        proof {
            lemma_table_dom(before, peer@);
        }
        match self.find(peer) {
            Some(i) => {
                proof {
                    lemma_table_remove(before, i as int);
                }
                self.links.remove(i);
                assert(self.entries() =~= before.remove(i as int));
                true
            },
            None => {
                assert(table_map(before) =~= table_map(before).remove(peer@));
                false
            },
        }
    }
}

} // verus!
