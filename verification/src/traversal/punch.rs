//! UDP hole punching: what to send to which candidate, and when to stop.

use vstd::prelude::*;

use crate::addr::{Datagram, SocketAddr};
use crate::codec;
use crate::traversal::candidate::Candidate;

verus! {

/// How many rounds of punch packets are sent before giving up.
pub const PUNCH_RETRIES: usize = 10;

/// How long to listen after each round, in milliseconds.
pub const PUNCH_INTERVAL_MS: u64 = 50;

/// How listening after a round of punch packets ended.
#[derive(Debug, Clone)]
pub enum PunchEvent {
    /// A packet arrived.
    Received { payload: Vec<u8>, from: SocketAddr },
    /// Receiving failed.
    Failed,
    /// Nothing arrived within the interval.
    TimedOut,
}

/// Where hole punching stands after a round.
#[derive(Debug, Clone)]
pub enum PunchOutcome {
    /// A peer got through: the first received payload and its sender.
    Established { payload: Vec<u8>, from: SocketAddr },
    /// Go on with the next round.
    KeepPunching,
    /// The last round brought nothing.
    GaveUp,
}

/// UDP hole-punching state for a single peer.
///
/// In each round a punch packet goes to each candidate, and then there is a
/// short wait for a response.
#[derive(Debug, Clone)]
pub struct Puncher {
    /// Where the peer may be reached.
    pub candidates: Vec<Candidate>,
    /// What the peer identifies us by.
    pub token: Vec<u8>,
    /// How many rounds are over.
    pub round: usize,
    /// How many candidates were sent to in this round.
    pub sent: usize,
}

impl Puncher {
    pub open spec fn wf(self) -> bool {
        &&& self.round <= PUNCH_RETRIES
        &&& self.sent <= self.candidates@.len()
    }

    /// Whether every candidate was sent to in the current round.
    pub open spec fn round_sent(self) -> bool {
        self.sent == self.candidates@.len()
    }

    /// Begin hole punching towards a list of peer candidates.
    ///
    /// `our_token` is sent in the punch payload so the peer can identify us.
    pub fn punch(peer_candidates: Vec<Candidate>, our_token: &[u8]) -> (p: Self)
        ensures
            p.wf(),
            p.candidates == peer_candidates,
            p.token@ == our_token@,
            p.round == 0,
            p.sent == 0,
    {
        Puncher {
            candidates: peer_candidates,
            token: codec::copy_range(our_token, 0, our_token.len()),
            round: 0,
            sent: 0,
        }
    }

    /// The next punch packet of this round, until every candidate had one.
    pub fn next_send(&mut self) -> (out: Option<Datagram>)
        requires
            old(self).wf(),
        ensures
            final(self).wf(),
            final(self).candidates == old(self).candidates,
            final(self).token == old(self).token,
            final(self).round == old(self).round,
            out is None <==> old(self).round_sent(),
            out is None ==> final(self).sent == old(self).sent,
            out matches Some(d) ==> {
                &&& final(self).sent == old(self).sent + 1
                &&& d.to == old(self).candidates@[old(self).sent as int].addr
                &&& d.payload@ == old(self).token@
            },
    {
        if self.sent == self.candidates.len() {
            return None;
        }
        let to: SocketAddr = self.candidates[self.sent].addr;
        let payload: Vec<u8> = codec::copy_range(self.token.as_slice(), 0, self.token.len());
        assert(payload@ =~= self.token@);
        self.sent = self.sent + 1;
        Some(Datagram { to, payload })
    }

    /// Closes a round with how the wait for a response ended.
    pub fn after_wait(&mut self, event: PunchEvent) -> (outcome: PunchOutcome)
        requires
            old(self).wf(),
            old(self).round < PUNCH_RETRIES,
        ensures
            final(self).wf(),
            final(self).candidates == old(self).candidates,
            final(self).token == old(self).token,
            event matches PunchEvent::Received { payload, from } ==> {
                &&& outcome == (PunchOutcome::Established { payload, from })
                &&& final(self).round == old(self).round
                &&& final(self).sent == old(self).sent
            },
            outcome is GaveUp <==> !(event is Received) && old(self).round == 9,
            !(event is Received) ==> {
                &&& final(self).round == old(self).round + 1
                &&& final(self).sent == 0
                &&& outcome == if final(self).round == PUNCH_RETRIES {
                    PunchOutcome::GaveUp
                } else {
                    PunchOutcome::KeepPunching
                }
            },
    {
        match event {
            PunchEvent::Received { payload, from } => PunchOutcome::Established { payload, from },
            PunchEvent::Failed | PunchEvent::TimedOut => {
                self.round = self.round + 1;
                self.sent = 0;
                if self.round == PUNCH_RETRIES {
                    PunchOutcome::GaveUp
                } else {
                    PunchOutcome::KeepPunching
                }
            },
        }
    }
}

/// Runs one whole round: every candidate is sent to once, in order.
pub fn round_datagrams(p: &mut Puncher) -> (out: Vec<Datagram>)
    requires
        old(p).wf(),
        old(p).sent == 0,
    ensures
        final(p).wf(),
        final(p).round_sent(),
        final(p).round == old(p).round,
        final(p).candidates == old(p).candidates,
        final(p).token == old(p).token,
        out@.len() == old(p).candidates@.len(),
        forall|i: int|
            0 <= i < out@.len() ==> {
                &&& (#[trigger] out@[i]).to == old(p).candidates@[i].addr
                &&& out@[i].payload@ == old(p).token@
            },
{
    let mut out: Vec<Datagram> = Vec::new();
    loop
        invariant
            p.wf(),
            p.round == old(p).round,
            p.candidates == old(p).candidates,
            p.token == old(p).token,
            out@.len() == p.sent,
            forall|i: int|
                0 <= i < out@.len() ==> {
                    &&& (#[trigger] out@[i]).to == old(p).candidates@[i].addr
                    &&& out@[i].payload@ == old(p).token@
                },
        ensures
            p.round_sent(),
        decreases p.candidates@.len() - p.sent,
    {
        match p.next_send() {
            Some(d) => {
                out.push(d);
            },
            None => {
                break;
            },
        }
    }
    out
}

/// Punching goes on for ten rounds of 50 milliseconds at most.
pub proof fn law_punching_takes_ten_rounds(p: Puncher)
    requires
        p.wf(),
    ensures
        p.round <= 10,
        p.round * PUNCH_INTERVAL_MS <= 500,
        p.round_sent() <==> p.sent == p.candidates@.len(),
        PUNCH_RETRIES * PUNCH_INTERVAL_MS == 500,
{
    assert(p.round * 50 <= 500);
}

/// A round sends the token to each candidate once, in their order, and then
/// nothing more; the candidates and the token stay the same.
pub proof fn law_each_candidate_is_sent_to_once(p: &mut Puncher, out: Option<Datagram>)
    requires
        call_ensures(Puncher::next_send, (p,), out),
    ensures
        old(p).sent == old(p).candidates@.len() ==> out is None && final(p).sent == old(p).sent,
        old(p).sent != old(p).candidates@.len() ==> {
            &&& out matches Some(d)
            &&& d.to == old(p).candidates@[old(p).sent as int].addr
            &&& d.payload@ == old(p).token@
            &&& final(p).sent == old(p).sent + 1
        },
        final(p).candidates == old(p).candidates,
        final(p).token == old(p).token,
        final(p).round == old(p).round,
{
}

/// A packet that arrives ends the punching at once, with what arrived. Without one
/// the next round begins with the first candidate, until the tenth is over.
pub proof fn law_first_packet_ends_the_punching(
    p: &mut Puncher,
    event: PunchEvent,
    outcome: PunchOutcome,
)
    requires
        call_ensures(Puncher::after_wait, (p, event), outcome),
    ensures
        event matches PunchEvent::Received { payload, from } ==> outcome
            == (PunchOutcome::Established { payload, from }),
        !(event is Received) ==> {
            &&& final(p).round == old(p).round + 1
            &&& final(p).sent == 0
            &&& outcome is GaveUp <==> final(p).round == 10
            &&& outcome is KeepPunching <==> final(p).round != 10
        },
        final(p).candidates == old(p).candidates,
        final(p).token == old(p).token,
{
}

} // verus!
