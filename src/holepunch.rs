use vstd::prelude::*;

verus! {

/// Where the connection to one remote peer stands in the relay and
/// hole-punch protocol.
#[derive(Clone, Copy, Debug, PartialEq, Eq, Structural)]
pub enum Phase {
    Idle,
    ReservationRequested,
    Reserved,
    RelayedConnected,
    PunchInitiated,
    DirectConnected,
    Failed,
}

/// What happened, as reported by the relay client, the hole-punch protocol
/// and the clock. Instants are in milliseconds on a monotonic clock.
#[derive(Clone, Copy, Debug, PartialEq, Eq, Structural)]
pub enum LinkEvent {
    /// The node asks a relay for a reservation.
    RequestReservation,
    /// The relay granted (or renewed) a reservation valid until `expiry`.
    ReservationAccepted { expiry: u64 },
    /// The relay refused the reservation.
    ReservationDenied,
    /// A relayed circuit to the peer was opened and authenticated.
    CircuitEstablished,
    /// Candidate addresses were exchanged and the simultaneous open began at `now`.
    PunchStarted { now: u64 },
    /// A direct connection to the peer succeeded.
    DirectSucceeded,
    /// The direct connection attempt was reported as failed.
    DirectFailed,
    /// The relay (or the relayed circuit through it) became unreachable.
    RelayLost,
    /// The clock reached `now`.
    Tick { now: u64 },
}

/// What the presentation layer is told after a step.
#[derive(Clone, Copy, Debug, PartialEq, Eq, Structural)]
pub enum LinkNotice {
    Quiet,
    DirectConnectionEstablished,
    RelayFallbackActive,
}

/// State of the relay and hole-punch protocol towards one remote peer.
#[derive(Clone, Copy, Debug, PartialEq, Eq, Structural)]
pub struct PunchSession {
    pub phase: Phase,
    /// Whether a relayed connection to the peer is open and usable.
    pub relayed: bool,
    /// Whether a direct connection to the peer is open.
    pub direct: bool,
    /// When the current reservation runs out.
    pub reservation_expiry: u64,
    /// When the in-flight hole-punch attempt is abandoned.
    pub deadline: u64,
    /// How long a hole-punch attempt may take.
    pub punch_window: u64,
}

pub open spec fn sat_add(a: u64, b: u64) -> u64 {
    if a + b > u64::MAX { u64::MAX } else { (a + b) as u64 }
}

/// Whether the phase is one from which nothing further happens to the attempt.
pub open spec fn is_terminal(p: Phase) -> bool {
    p == Phase::DirectConnected || p == Phase::Failed
}

/// Whether traffic to the peer (for instance publish/subscribe) has a path.
pub open spec fn usable(s: PunchSession) -> bool {
    s.relayed || s.direct
}

/// The states a session can be in: before a circuit exists neither
/// connection is open; on a circuit only the relayed one is; once upgraded
/// only the direct one is; a failed session has no direct connection.
pub open spec fn consistent(s: PunchSession) -> bool {
    match s.phase {
        Phase::Idle | Phase::ReservationRequested | Phase::Reserved => !s.relayed && !s.direct,
        Phase::RelayedConnected | Phase::PunchInitiated => s.relayed && !s.direct,
        Phase::DirectConnected => s.direct && !s.relayed,
        Phase::Failed => !s.direct,
    }
}

/// A session that moved to `Failed`, keeping the relayed connection if it is alive.
pub open spec fn failed(s: PunchSession) -> PunchSession {
    PunchSession { phase: Phase::Failed, ..s }
}

/// The transition table of the protocol.
pub open spec fn step(s: PunchSession, e: LinkEvent) -> PunchSession {
    match e {
        LinkEvent::RequestReservation => {
            if s.phase == Phase::Idle || (s.phase == Phase::Failed && !s.relayed && !s.direct) {
                PunchSession { phase: Phase::ReservationRequested, ..s }
            } else {
                s
            }
        },
        LinkEvent::ReservationAccepted { expiry } => {
            if s.phase == Phase::ReservationRequested || s.phase == Phase::Reserved {
                PunchSession { phase: Phase::Reserved, reservation_expiry: expiry, ..s }
            } else {
                s
            }
        },
        LinkEvent::ReservationDenied => {
            if s.phase == Phase::ReservationRequested {
                failed(s)
            } else {
                s
            }
        },
        LinkEvent::CircuitEstablished => {
            if s.phase == Phase::Reserved {
                PunchSession { phase: Phase::RelayedConnected, relayed: true, ..s }
            } else {
                s
            }
        },
        LinkEvent::PunchStarted { now } => {
            if s.phase == Phase::RelayedConnected {
                PunchSession {
                    phase: Phase::PunchInitiated,
                    deadline: sat_add(now, s.punch_window),
                    ..s
                }
            } else {
                s
            }
        },
        LinkEvent::DirectSucceeded => {
            if s.phase == Phase::PunchInitiated {
                PunchSession { phase: Phase::DirectConnected, relayed: false, direct: true, ..s }
            } else {
                s
            }
        },
        LinkEvent::DirectFailed => {
            if s.phase == Phase::PunchInitiated {
                failed(s)
            } else {
                s
            }
        },
        LinkEvent::RelayLost => {
            if is_terminal(s.phase) && !s.relayed {
                s
            } else if s.phase == Phase::DirectConnected {
                PunchSession { relayed: false, ..s }
            } else {
                PunchSession { phase: Phase::Failed, relayed: false, ..s }
            }
        },
        LinkEvent::Tick { now } => {
            if s.phase == Phase::PunchInitiated && now >= s.deadline {
                failed(s)
            } else if s.phase == Phase::Reserved && now >= s.reservation_expiry {
                PunchSession { phase: Phase::Idle, ..s }
            } else {
                s
            }
        },
    }
}

/// What a step from `s` to `t` reports.
pub open spec fn notice_of(s: PunchSession, t: PunchSession) -> LinkNotice {
    if s.phase != Phase::DirectConnected && t.phase == Phase::DirectConnected {
        LinkNotice::DirectConnectionEstablished
    } else if s.phase != Phase::Failed && t.phase == Phase::Failed && t.relayed {
        LinkNotice::RelayFallbackActive
    } else {
        LinkNotice::Quiet
    }
}

impl PunchSession {
    /// A session with nothing requested yet; attempts last `punch_window` ms.
    pub fn new(punch_window: u64) -> (r: PunchSession)
        ensures
            r.phase == Phase::Idle,
            !r.relayed,
            !r.direct,
            r.reservation_expiry == 0,
            r.deadline == 0,
            r.punch_window == punch_window,
            consistent(r),
    {
        PunchSession {
            phase: Phase::Idle,
            relayed: false,
            direct: false,
            reservation_expiry: 0,
            deadline: 0,
            punch_window,
        }
    }

    /// Applies one event and says what to report.
    pub fn handle(&mut self, e: LinkEvent) -> (n: LinkNotice)
        ensures
            *final(self) == step(*old(self), e),
            n == notice_of(*old(self), *final(self)),
            consistent(*old(self)) ==> consistent(*final(self)),
    {
        let before = *self;
        match e {
            LinkEvent::RequestReservation => {
                if self.phase == Phase::Idle || (self.phase == Phase::Failed && !self.relayed
                    && !self.direct) {
                    self.phase = Phase::ReservationRequested;
                }
            },
            LinkEvent::ReservationAccepted { expiry } => {
                if self.phase == Phase::ReservationRequested || self.phase == Phase::Reserved {
                    self.phase = Phase::Reserved;
                    self.reservation_expiry = expiry;
                }
            },
            LinkEvent::ReservationDenied => {
                if self.phase == Phase::ReservationRequested {
                    self.phase = Phase::Failed;
                }
            },
            LinkEvent::CircuitEstablished => {
                if self.phase == Phase::Reserved {
                    self.phase = Phase::RelayedConnected;
                    self.relayed = true;
                }
            },
            LinkEvent::PunchStarted { now } => {
                if self.phase == Phase::RelayedConnected {
                    self.phase = Phase::PunchInitiated;
                    self.deadline = now.saturating_add(self.punch_window);
                }
            },
            LinkEvent::DirectSucceeded => {
                if self.phase == Phase::PunchInitiated {
                    self.phase = Phase::DirectConnected;
                    self.relayed = false;
                    self.direct = true;
                }
            },
            LinkEvent::DirectFailed => {
                if self.phase == Phase::PunchInitiated {
                    self.phase = Phase::Failed;
                }
            },
            LinkEvent::RelayLost => {
                let terminal = self.phase == Phase::DirectConnected || self.phase == Phase::Failed;
                if terminal && !self.relayed {
                } else if self.phase == Phase::DirectConnected {
                    self.relayed = false;
                } else {
                    self.phase = Phase::Failed;
                    self.relayed = false;
                }
            },
            LinkEvent::Tick { now } => {
                if self.phase == Phase::PunchInitiated && now >= self.deadline {
                    self.phase = Phase::Failed;
                } else if self.phase == Phase::Reserved && now >= self.reservation_expiry {
                    self.phase = Phase::Idle;
                }
            },
        }
        if before.phase != Phase::DirectConnected && self.phase == Phase::DirectConnected {
            LinkNotice::DirectConnectionEstablished
        } else if before.phase != Phase::Failed && self.phase == Phase::Failed && self.relayed {
            LinkNotice::RelayFallbackActive
        } else {
            LinkNotice::Quiet
        }
    }
}

/// Which side of a coordinated simultaneous open a node plays.
#[derive(Clone, Copy, Debug, PartialEq, Eq, Structural)]
pub enum Role {
    Initiator,
    Responder,
}

/// Lexicographic order on byte strings (a proper prefix comes first).
pub open spec fn lex_lt(a: Seq<u8>, b: Seq<u8>) -> bool
    decreases a.len(),
{
    if a.len() == 0 {
        b.len() > 0
    } else if b.len() == 0 {
        false
    } else if a[0] != b[0] {
        a[0] < b[0]
    } else {
        lex_lt(a.drop_first(), b.drop_first())
    }
}

/// The deterministic tie-break: the node whose identifier sorts first initiates.
pub open spec fn role_of(local: Seq<u8>, remote: Seq<u8>) -> Role {
    if lex_lt(local, remote) { Role::Initiator } else { Role::Responder }
}

/// The role this node takes in a hole-punch with `remote`, from the byte order
/// of the two peer identifiers.
pub fn punch_role(local: &Vec<u8>, remote: &Vec<u8>) -> (r: Role)
    ensures
        r == role_of(local@, remote@),
{
    let mut i: usize = 0;
    assert(local@.skip(0) =~= local@);
    assert(remote@.skip(0) =~= remote@);
    while i < local.len() && i < remote.len()
        invariant
            i <= local@.len(),
            i <= remote@.len(),
            lex_lt(local@, remote@) == lex_lt(local@.skip(i as int), remote@.skip(i as int)),
        decreases local.len() - i,
    {
        if local[i] != remote[i] {
            if local[i] < remote[i] {
                return Role::Initiator;
            } else {
                return Role::Responder;
            }
        }
        assert(local@.skip(i as int).drop_first() =~= local@.skip(i + 1));
        assert(remote@.skip(i as int).drop_first() =~= remote@.skip(i + 1));
        i = i + 1;
    }
    if i == local.len() && i < remote.len() {
        Role::Initiator
    } else {
        Role::Responder
    }
}

proof fn lemma_lex_asym(a: Seq<u8>, b: Seq<u8>)
    requires
        a != b,
    ensures
        lex_lt(a, b) != lex_lt(b, a),
    decreases a.len(),
{
    if a.len() > 0 && b.len() > 0 && a[0] == b[0] {
        if a.drop_first() == b.drop_first() {
            assert(a =~= seq![a[0]] + a.drop_first());
            assert(b =~= seq![b[0]] + b.drop_first());
        }
        lemma_lex_asym(a.drop_first(), b.drop_first());
    } else if a.len() == 0 && b.len() == 0 {
        assert(a =~= b);
    }
}

/// Two distinct peers always take opposite roles, so exactly one of them
/// initiates the simultaneous open.
pub proof fn lemma_roles_complement(a: Seq<u8>, b: Seq<u8>)
    requires
        a != b,
    ensures
        role_of(a, b) != role_of(b, a),
{
    lemma_lex_asym(a, b);
}

/// Every transition keeps a session in one of its possible states.
pub proof fn lemma_step_consistent(s: PunchSession, e: LinkEvent)
    requires
        consistent(s),
    ensures
        consistent(step(s, e)),
{
}

/// A hole-punch attempt whose deadline passes without a direct connection
/// ends in `Failed`, and the relayed connection it ran over stays open and
/// usable for traffic.
pub proof fn lemma_punch_timeout_keeps_relay(s: PunchSession, now: u64)
    requires
        s.phase == Phase::PunchInitiated,
        s.relayed,
        now >= s.deadline,
    ensures
        step(s, LinkEvent::Tick { now }).phase == Phase::Failed,
        step(s, LinkEvent::Tick { now }).relayed,
        usable(step(s, LinkEvent::Tick { now })),
        notice_of(s, step(s, LinkEvent::Tick { now })) == LinkNotice::RelayFallbackActive,
{
}

/// Only the loss of the relay closes a relayed connection before a direct one
/// replaces it: failed reservations, failed or timed-out punches and clock
/// ticks leave it open.
pub proof fn lemma_relay_kept_until_direct(s: PunchSession, e: LinkEvent)
    requires
        s.relayed,
        e != LinkEvent::RelayLost,
    ensures
        step(s, e).relayed || step(s, e).phase == Phase::DirectConnected,
        usable(step(s, e)),
{
}

/// A second punch request while one attempt is in flight is coalesced: it
/// leaves the attempt, and its deadline, as they were.
pub proof fn lemma_punch_coalesced(s: PunchSession, now: u64)
    requires
        s.phase == Phase::PunchInitiated,
    ensures
        step(s, LinkEvent::PunchStarted { now }) == s,
{
}

} // verus!
