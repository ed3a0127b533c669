//! Properties of the table that hold across all of its operations.
use vstd::prelude::*;
use crate::betting::{action_error, next_seat};
use crate::dealing::{reveal_error, reveal_fits};
use crate::phase::next_phase;
use crate::settlement::{result_error, unmatched, winnable, won};
use crate::state::{
    contributions, must_act, phase_rank, sum, GamePhase, Player, PokerError, Pubkey, Table,
    UNREVEALED,
};

verus! {

/// Every operation keeps the table well-formed, so after any sequence of
/// accepted operations the pot equals the sum of what the players put in
/// during the hand.
pub proof fn pot_equals_contributions(t: Table)
    requires
        t.wf(),
    ensures
        t.pot == sum(contributions(t.players@)),
{
}

/// An accepted showdown result pays out no more than the pot, only to seats
/// that had not folded; each seat receives in total no more than the side
/// pots it can win, and at least the part of its contribution that no other
/// seat matched.
pub proof fn payouts_within_pot(
    t: Table,
    mxe: Pubkey,
    winners: Seq<u8>,
    payouts: Seq<u64>,
    proof_verified: bool,
)
    requires
        t.wf(),
        result_error(t, mxe, winners, payouts, proof_verified) is None,
    ensures
        sum(payouts) <= t.pot,
        forall|k: int|
            0 <= k < winners.len() ==> #[trigger] winners[k] < t.players@.len()
                && t.players@[winners[k] as int].is_active,
        forall|i: int|
            0 <= i < t.players@.len() ==> #[trigger] won(winners, payouts, i, winners.len() as int)
                <= winnable(t, i) && won(winners, payouts, i, winners.len() as int) >= unmatched(t, i),
{
}

/// A check by a seat that has not matched the bet is refused (and a refused
/// action leaves the table as it was); it is refused as a check that must
/// call or fold whenever nothing else about it is wrong first.
pub proof fn check_requires_matched_bet(
    t: Table,
    seat: u8,
    signer: Pubkey,
    raise: u64,
    now: i64,
)
    requires
        t.wf(),
        seat < t.players@.len(),
        t.current_bet != t.players@[seat as int].current_bet,
    ensures
        action_error(t, seat, signer, 1, raise, now) is Some,
        action_error(t, seat, signer, 2, raise, now) is None ==> action_error(
            t,
            seat,
            signer,
            1,
            raise,
            now,
        ) == Some(PokerError::MustCallOrFold),
{
}

/// A raise smaller than the big blind is refused, and the table is left as
/// it was.
pub proof fn raise_below_minimum_refused(t: Table, seat: u8, signer: Pubkey, raise: u64, now: i64)
    requires
        t.wf(),
        raise < t.big_blind,
    ensures
        action_error(t, seat, signer, 3, raise, now) is Some,
{
}

/// Streets follow one another one step at a time: the flop comes only after
/// the pre-flop, never straight from waiting, and every street moves exactly
/// one step forward.
pub proof fn phases_advance_one_step(p: GamePhase)
    ensures
        next_phase(p) == Some(GamePhase::Flop) <==> p == GamePhase::PreFlop,
        next_phase(GamePhase::Waiting) is None,
        next_phase(p) is Some ==> phase_rank(next_phase(p)->Some_0) == phase_rank(p) + 1,
{
}

/// A community-card callback that names a slot already filled is refused
/// (and a refused callback leaves the table as it was).
pub proof fn filled_slot_reveal_refused(
    t: Table,
    mxe: Pubkey,
    indices: Seq<u8>,
    values: Seq<u8>,
    k: int,
)
    requires
        t.wf(),
        0 <= k < indices.len(),
        indices[k] < t.community_cards@.len(),
        t.community_cards@[indices[k] as int] != UNREVEALED,
    ensures
        reveal_error(t, mxe, indices, values) is Some,
{
    if reveal_fits(t, indices, values) {
        assert(indices[k] == indices[k]);
    }
}

/// The turn never passes to a folded or all-in seat: the next seat to act
/// still owes a decision, unless no seat does and the turn stays put.
pub proof fn turn_skips_folded_and_all_in(ps: Seq<Player>, from: int, k: int)
    requires
        0 <= from < ps.len(),
        k >= 1,
    ensures
        next_seat(ps, from, k) == from || (0 <= next_seat(ps, from, k) < ps.len() && must_act(
            ps[next_seat(ps, from, k)],
        )),
    decreases ps.len() + 1 - k,
{
    if k <= ps.len() && !must_act(ps[(from + k) % (ps.len() as int)]) {
        turn_skips_folded_and_all_in(ps, from, k + 1);
    }
}

} // verus!
