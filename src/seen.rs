use vstd::prelude::*;

verus! {

/// Identity of a flooded message for de-duplication: its source peer
/// identifier and the sequence number the source gave it, both as bytes.
pub struct MessageId {
    pub source: Vec<u8>,
    pub seqno: Vec<u8>,
}

impl View for MessageId {
    type V = (Seq<u8>, Seq<u8>);

    open spec fn view(&self) -> (Seq<u8>, Seq<u8>) {
        (self.source@, self.seqno@)
    }
}

/// Whether two byte strings are equal.
pub fn bytes_eq(a: &Vec<u8>, b: &Vec<u8>) -> (r: bool)
    ensures
        r == (a@ == b@),
{
    if a.len() != b.len() {
        return false;
    }
    let mut i: usize = 0;
    while i < a.len()
        invariant
            a.len() == b.len(),
            i <= a.len(),
            a@.subrange(0, i as int) == b@.subrange(0, i as int),
        decreases a.len() - i,
    {
        if a[i] != b[i] {
            assert(a@[i as int] != b@[i as int]);
            return false;
        }
        assert(a@.subrange(0, i + 1) =~= a@.subrange(0, i as int).push(a@[i as int]));
        assert(b@.subrange(0, i + 1) =~= b@.subrange(0, i as int).push(b@[i as int]));
        i = i + 1;
    }
    assert(a@ =~= a@.subrange(0, a.len() as int));
    assert(b@ =~= b@.subrange(0, b.len() as int));
    true
}

/// The window after recording a message identity that was not yet in it:
/// the identity is appended, and the oldest one leaves once the window holds
/// `cap` identities.
pub open spec fn push_window(
    ids: Seq<(Seq<u8>, Seq<u8>)>,
    id: (Seq<u8>, Seq<u8>),
    cap: nat,
) -> Seq<(Seq<u8>, Seq<u8>)> {
    if ids.len() < cap {
        ids.push(id)
    } else {
        ids.subrange(ids.len() - cap + 1, ids.len() as int).push(id)
    }
}

/// The window after a message identity is observed: unchanged when the
/// identity is already in it, else with the identity recorded.
pub open spec fn observed(
    ids: Seq<(Seq<u8>, Seq<u8>)>,
    id: (Seq<u8>, Seq<u8>),
    cap: nat,
) -> Seq<(Seq<u8>, Seq<u8>)> {
    if ids.contains(id) {
        ids
    } else {
        push_window(ids, id, cap)
    }
}

/// A bounded seen-set: the identities of the most recently observed messages,
/// oldest first, at most `capacity` of them.
pub struct SeenSet {
    entries: Vec<MessageId>,
    capacity: usize,
}

impl SeenSet {
    /// The recorded identities, oldest first.
    pub closed spec fn ids(&self) -> Seq<(Seq<u8>, Seq<u8>)> {
        self.entries@.map_values(|m: MessageId| m@)
    }

    /// How many identities the window keeps.
    pub closed spec fn cap(&self) -> nat {
        self.capacity as nat
    }

    pub closed spec fn wf(&self) -> bool {
        &&& 1 <= self.capacity
        &&& self.entries@.len() <= self.capacity
    }

    /// A well-formed seen-set keeps at least one identity.
    pub proof fn lemma_cap_positive(&self)
        requires
            self.wf(),
        ensures
            self.cap() >= 1,
    {
    }

    /// An empty seen-set that keeps the last `capacity` identities (at least one).
    pub fn new(capacity: usize) -> (r: SeenSet)
        ensures
            r.wf(),
            r.ids() == Seq::<(Seq<u8>, Seq<u8>)>::empty(),
            r.cap() == if capacity == 0 { 1 } else { capacity as nat },
    {
        let c: usize = if capacity == 0 { 1 } else { capacity };
        let r = SeenSet { entries: Vec::new(), capacity: c };
        assert(r.ids() =~= Seq::<(Seq<u8>, Seq<u8>)>::empty());
        r
    }

    /// How many identities the window keeps.
    pub fn capacity(&self) -> (r: usize)
        ensures
            r == self.cap(),
    {
        self.capacity
    }

    /// Number of identities currently recorded.
    pub fn len(&self) -> (r: usize)
        ensures
            r == self.ids().len(),
    {
        self.entries.len()
    }

    /// Whether a message with this identity is in the window.
    pub fn contains(&self, id: &MessageId) -> (r: bool)
        ensures
            r == self.ids().contains(id@),
    {
        let mut i: usize = 0;
        while i < self.entries.len()
            invariant
                i <= self.entries@.len(),
                forall|j: int| 0 <= j < i ==> self.ids()[j] != id@,
            decreases self.entries.len() - i,
        {
            let e = &self.entries[i];
            if bytes_eq(&e.source, &id.source) && bytes_eq(&e.seqno, &id.seqno) {
                assert(self.ids()[i as int] == id@);
                return true;
            }
            i = i + 1;
        }
        proof {
            if self.ids().contains(id@) {
                let k = choose|k: int| 0 <= k < self.ids().len() && self.ids()[k] == id@;
                assert(self.ids()[k] != id@);
            }
        }
        false
    }

    /// Observes a message: returns whether it is new. A new identity is
    /// recorded (evicting the oldest one when the window is full); a known one
    /// leaves the set as it was.
    pub fn observe(&mut self, id: MessageId) -> (fresh: bool)
        requires
            old(self).wf(),
        ensures
            final(self).wf(),
            final(self).cap() == old(self).cap(),
            fresh == !old(self).ids().contains(id@),
            final(self).ids() == observed(old(self).ids(), id@, old(self).cap()),
    {
        if self.contains(&id) {
            return false;
        }
        let ghost old_ids = self.ids();
        let ghost idv = id@;
        if self.entries.len() >= self.capacity {
            self.entries.remove(0);
            assert(self.ids() =~= old_ids.subrange(1, old_ids.len() as int));
        }
        self.entries.push(id);
        assert(self.ids() =~= push_window(old_ids, idv, self.cap()));
        true
    }
}

/// Once a message has been observed, observing it again finds it already seen
/// and changes nothing: re-delivery never counts as new.
pub proof fn lemma_observe_idempotent(
    ids: Seq<(Seq<u8>, Seq<u8>)>,
    id: (Seq<u8>, Seq<u8>),
    cap: nat,
)
    requires
        1 <= cap,
    ensures
        observed(ids, id, cap).contains(id),
        observed(observed(ids, id, cap), id, cap) == observed(ids, id, cap),
{
    let o = observed(ids, id, cap);
    if !ids.contains(id) {
        assert(o[o.len() - 1] == id);
    }
}

/// Observes `msgs` in order from the window `ids`: the final window and how
/// many of the observations found a new message.
pub open spec fn observe_all(
    ids: Seq<(Seq<u8>, Seq<u8>)>,
    msgs: Seq<(Seq<u8>, Seq<u8>)>,
    cap: nat,
) -> (Seq<(Seq<u8>, Seq<u8>)>, nat)
    decreases msgs.len(),
{
    if msgs.len() == 0 {
        (ids, 0)
    } else {
        let (w, n) = observe_all(ids, msgs.drop_last(), cap);
        let m = msgs.last();
        (observed(w, m, cap), if w.contains(m) { n } else { n + 1 })
    }
}

/// However many copies of one message arrive (over a second path, or round
/// a cycle), at most one of them is new, so the message is delivered at most
/// once.
pub proof fn lemma_copies_fresh_at_most_once(
    ids: Seq<(Seq<u8>, Seq<u8>)>,
    msgs: Seq<(Seq<u8>, Seq<u8>)>,
    id: (Seq<u8>, Seq<u8>),
    cap: nat,
)
    requires
        1 <= cap,
        forall|i: int| 0 <= i < msgs.len() ==> msgs[i] == id,
    ensures
        observe_all(ids, msgs, cap).1 <= 1,
        msgs.len() > 0 ==> observe_all(ids, msgs, cap).0 == observed(ids, id, cap),
        ids.contains(id) ==> observe_all(ids, msgs, cap).1 == 0,
    decreases msgs.len(),
{
    if msgs.len() > 0 {
        let rest = msgs.drop_last();
        lemma_copies_fresh_at_most_once(ids, rest, id, cap);
        lemma_observe_idempotent(ids, id, cap);
        if rest.len() > 0 {
            assert(observe_all(ids, rest, cap).0.contains(id));
        }
    }
}

} // verus!
