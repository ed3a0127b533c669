//! The betting engine: validating a player's action and applying it to the
//! seat, the pot and the round counters, then passing the turn on.
use vstd::prelude::*;
use crate::ledger::{after_contribution, contribute, lemma_elem_le_sum};
use crate::state::{
    contributions, is_street, must_act, stacks, ActionSubmitted, EncryptedAction, GamePhase, Player, PlayerAction,
    PokerError, Pubkey, Table, TIME_BANK_SECONDS,
};

verus! {

/// The action that an action code and raise size stand for.
pub open spec fn action_of(code: u8, raise: u64) -> Option<PlayerAction> {
    if code == 0 {
        Some(PlayerAction::Fold)
    } else if code == 1 {
        Some(PlayerAction::Check)
    } else if code == 2 {
        Some(PlayerAction::Call)
    } else if code == 3 {
        Some(PlayerAction::Raise(raise))
    } else if code == 4 {
        Some(PlayerAction::AllIn)
    } else {
        None
    }
}

pub fn decode_action(code: u8, raise: u64) -> (r: Option<PlayerAction>)
    ensures
        r == action_of(code, raise),
{
    match code {
        0 => Some(PlayerAction::Fold),
        1 => Some(PlayerAction::Check),
        2 => Some(PlayerAction::Call),
        3 => Some(PlayerAction::Raise(raise)),
        4 => Some(PlayerAction::AllIn),
        _ => None,
    }
}

/// The first seat after `from` (going round the table) that still owes a
/// decision, looking `k` seats ahead and further; `from` itself when none does.
pub open spec fn next_seat(ps: Seq<Player>, from: int, k: int) -> int
    decreases ps.len() + 1 - k,
{
    if k < 1 || k > ps.len() {
        from
    } else if must_act(ps[(from + k) % (ps.len() as int)]) {
        (from + k) % (ps.len() as int)
    } else {
        next_seat(ps, from, k + 1)
    }
}

/// Passes the turn to the next seat that is active and not all-in, skipping
/// folded and all-in seats; the turn stays where it is when no such seat is left.
pub fn advance_turn(table: &mut Table)
    requires
        old(table).players@.len() > 0,
        old(table).current_turn < old(table).players@.len(),
        old(table).players@.len() <= 255,
    ensures
        final(table).current_turn == next_seat(old(table).players@, old(table).current_turn as int, 1),
        final(table).current_turn < old(table).players@.len(),
        *final(table) == (Table { current_turn: final(table).current_turn, ..*old(table) }),
{
    let n = table.players.len();
    let from = table.current_turn as usize;
    let mut k: usize = 1;
    while k <= n
        invariant
            1 <= k <= n + 1,
            n == table.players@.len(),
            from < n,
            from == old(table).current_turn as usize,
            n <= 255,
            *table == *old(table),
            next_seat(table.players@, from as int, 1) == next_seat(table.players@, from as int, k as int),
        decreases n + 1 - k,
    {
        let s = (from + k) % n;
        if table.players[s].is_active && !table.players[s].is_all_in {
            assert(s as int == (from as int + k as int) % (n as int));
            assert(next_seat(table.players@, from as int, k as int) == s as int);
            table.current_turn = s as u8;
            return;
        }
        k = k + 1;
    }
}

/// Elapsed think time beyond the free allowance is drawn from the time bank.
pub open spec fn time_bank_after(tb: i64, elapsed: int) -> int {
    if elapsed > TIME_BANK_SECONDS {
        tb - (elapsed - TIME_BANK_SECONDS)
    } else {
        tb as int
    }
}

/// What a player must add to match the table's bet.
pub open spec fn owed(table_bet: u64, p: Player) -> int {
    if table_bet > p.current_bet {
        table_bet - p.current_bet
    } else {
        0
    }
}

/// Chips that an action moves from the seat's stack into the pot.
pub open spec fn wager(table_bet: u64, p: Player, a: PlayerAction) -> int {
    match a {
        PlayerAction::Fold => 0,
        PlayerAction::Check => 0,
        PlayerAction::Call => if owed(table_bet, p) < p.chip_count {
            owed(table_bet, p)
        } else {
            p.chip_count as int
        },
        PlayerAction::Raise(x) => owed(table_bet, p) + x,
        PlayerAction::AllIn => p.chip_count as int,
    }
}

/// An all-in that puts the seat above the table's bet acts as a raise.
pub open spec fn all_in_raises(table_bet: u64, p: Player) -> bool {
    p.current_bet + p.chip_count > table_bet
}

/// The seat after a legal action.
pub open spec fn seat_after_action(table_bet: u64, p: Player, a: PlayerAction, tb: int) -> Player {
    let q = after_contribution(p, wager(table_bet, p, a));
    Player {
        is_active: if a is Fold { false } else { p.is_active },
        is_all_in: match a {
            PlayerAction::Call => p.chip_count == wager(table_bet, p, a),
            PlayerAction::AllIn => true,
            _ => p.is_all_in,
        },
        has_acted: true,
        time_bank_remaining: tb as i64,
        ..q
    }
}

/// The bet to match after a legal action.
pub open spec fn bet_after_action(table_bet: u64, p: Player, a: PlayerAction) -> int {
    match a {
        PlayerAction::Raise(x) => table_bet + x,
        PlayerAction::AllIn => if all_in_raises(table_bet, p) {
            p.current_bet + p.chip_count
        } else {
            table_bet as int
        },
        _ => table_bet as int,
    }
}

pub open spec fn inc_sat(x: u8) -> u8 {
    if x < 255 {
        (x + 1) as u8
    } else {
        255
    }
}

pub open spec fn dec_sat(x: u8) -> u8 {
    if x > 0 {
        (x - 1) as u8
    } else {
        0
    }
}

/// Seats counted as having settled this round, after a legal action.
pub open spec fn acted_after_action(t: Table, p: Player, a: PlayerAction) -> u8 {
    match a {
        PlayerAction::Check => inc_sat(t.players_acted),
        PlayerAction::Call => if p.chip_count == wager(t.current_bet, p, a) {
            t.players_acted
        } else {
            inc_sat(t.players_acted)
        },
        PlayerAction::Raise(_) => 1,
        PlayerAction::AllIn => if all_in_raises(t.current_bet, p) {
            1
        } else {
            t.players_acted
        },
        _ => t.players_acted,
    }
}

/// Seats that owe a decision this round, after a legal action: a fold or an
/// all-in that does not raise removes the seat from the requirement.
pub open spec fn to_act_after_action(t: Table, p: Player, a: PlayerAction) -> u8 {
    match a {
        PlayerAction::Fold => dec_sat(t.players_to_act),
        PlayerAction::Call => if p.chip_count == wager(t.current_bet, p, a) {
            dec_sat(t.players_to_act)
        } else {
            t.players_to_act
        },
        PlayerAction::AllIn => if all_in_raises(t.current_bet, p) {
            t.players_to_act
        } else {
            dec_sat(t.players_to_act)
        },
        _ => t.players_to_act,
    }
}

/// Why an action is refused, checked in this order; `None` when it is legal.
pub open spec fn action_error(
    t: Table,
    seat: u8,
    signer: Pubkey,
    code: u8,
    raise: u64,
    now: i64,
) -> Option<PokerError> {
    let p = t.players@[seat as int];
    let elapsed = now - t.last_action_ts;
    if !(GamePhase::PreFlop == t.phase || GamePhase::Flop == t.phase || GamePhase::Turn == t.phase
        || GamePhase::River == t.phase) || t.awaiting_callback {
        Some(PokerError::InvalidPhase)
    } else if seat >= t.players@.len() {
        Some(PokerError::InvalidSeat)
    } else if !must_act(p) {
        Some(PokerError::PlayerInactive)
    } else if p.wallet@ != signer@ || t.current_turn != seat {
        Some(PokerError::NotYourTurn)
    } else if elapsed > TIME_BANK_SECONDS + p.time_bank_remaining {
        Some(PokerError::TimeExpired)
    } else if action_of(code, raise) is None {
        Some(PokerError::InvalidAction)
    } else {
        match action_of(code, raise)->Some_0 {
            PlayerAction::Check => if t.current_bet != p.current_bet {
                Some(PokerError::MustCallOrFold)
            } else {
                None
            },
            PlayerAction::Raise(x) => if p.chip_count < owed(t.current_bet, p) + x {
                Some(PokerError::InsufficientChips)
            } else if x < t.big_blind {
                Some(PokerError::RaiseTooSmall)
            } else {
                None
            },
            _ => None,
        }
    }
}

pub fn same_key(a: &Pubkey, b: &Pubkey) -> (r: bool)
    ensures
        r == (a@ == b@),
{
    let mut i: usize = 0;
    while i < 32
        invariant
            0 <= i <= 32,
            forall|j: int| 0 <= j < i ==> a@[j] == b@[j],
        decreases 32 - i,
    {
        if a[i] != b[i] {
            return false;
        }
        i = i + 1;
    }
    assert(a@ =~= b@);
    true
}

/// Whether an action is within what the seat's stack and the table's bet allow.
pub open spec fn action_allowed(t: Table, p: Player, a: PlayerAction) -> bool {
    match a {
        PlayerAction::Check => t.current_bet == p.current_bet,
        PlayerAction::Raise(x) => p.chip_count >= owed(t.current_bet, p) + x && x >= t.big_blind,
        _ => true,
    }
}

/// Checks an action against the table without changing it; on success hands
/// back the decoded action and the seat's time bank after the elapsed time.
fn check_action(
    table: &Table,
    seat: u8,
    signer: &Pubkey,
    action_type: u8,
    raise_amount: u64,
    now: i64,
) -> (r: Result<(PlayerAction, i64), PokerError>)
    requires
        table.wf(),
    ensures
        r is Err <==> action_error(*table, seat, *signer, action_type, raise_amount, now) is Some,
        r is Err ==> r->Err_0 == action_error(
            *table,
            seat,
            *signer,
            action_type,
            raise_amount,
            now,
        )->Some_0,
        r is Ok ==> ({
            let p = table.players@[seat as int];
            &&& seat < table.players@.len()
            &&& must_act(p)
            &&& table.current_turn == seat
            &&& is_street(table.phase)
            &&& r->Ok_0.0 == action_of(action_type, raise_amount)->Some_0
            &&& action_allowed(*table, p, r->Ok_0.0)
            &&& r->Ok_0.1 == time_bank_after(p.time_bank_remaining, now - table.last_action_ts)
        }),
{
    if !(matches!(table.phase, GamePhase::PreFlop) || matches!(table.phase, GamePhase::Flop)
        || matches!(table.phase, GamePhase::Turn) || matches!(table.phase, GamePhase::River))
        || table.awaiting_callback {
        return Err(PokerError::InvalidPhase);
    }
    if seat as usize >= table.players.len() {
        return Err(PokerError::InvalidSeat);
    }
    let p = table.players[seat as usize];
    if !(p.is_active && !p.is_all_in) {
        return Err(PokerError::PlayerInactive);
    }
    if !same_key(&p.wallet, signer) || table.current_turn != seat {
        return Err(PokerError::NotYourTurn);
    }
    let elapsed: i128 = now as i128 - table.last_action_ts as i128;
    if elapsed > TIME_BANK_SECONDS as i128 + p.time_bank_remaining as i128 {
        return Err(PokerError::TimeExpired);
    }
    let action = match decode_action(action_type, raise_amount) {
        Some(a) => a,
        None => return Err(PokerError::InvalidAction),
    };
    let owed_now: u64 = if table.current_bet > p.current_bet {
        table.current_bet - p.current_bet
    } else {
        0
    };
    match action {
        PlayerAction::Check => {
            if table.current_bet != p.current_bet {
                return Err(PokerError::MustCallOrFold);
            }
        },
        PlayerAction::Raise(x) => {
            if owed_now > p.chip_count || x > p.chip_count - owed_now {
                return Err(PokerError::InsufficientChips);
            }
            if x < table.big_blind {
                return Err(PokerError::RaiseTooSmall);
            }
        },
        _ => {},
    }
    let tb: i64 = if elapsed > TIME_BANK_SECONDS as i128 {
        (p.time_bank_remaining as i128 - (elapsed - TIME_BANK_SECONDS as i128)) as i64
    } else {
        p.time_bank_remaining
    };
    Ok((action, tb))
}

/// Applies a checked action of the seat whose turn it is.
fn apply_action(table: &mut Table, s: usize, action: PlayerAction, tb: i64, now: i64)
    requires
        old(table).wf(),
        s < old(table).players@.len(),
        old(table).current_turn == s,
        must_act(old(table).players@[s as int]),
        is_street(old(table).phase),
        action_allowed(*old(table), old(table).players@[s as int], action),
    ensures
        final(table).wf(),
        ({
            let t = *old(table);
            let p = t.players@[s as int];
            let ps = t.players@.update(s as int, seat_after_action(t.current_bet, p, action, tb as int));
            &&& final(table).players@ == ps
            &&& final(table).pot == t.pot + wager(t.current_bet, p, action)
            &&& final(table).current_bet == bet_after_action(t.current_bet, p, action)
            &&& final(table).players_acted == acted_after_action(t, p, action)
            &&& final(table).players_to_act == to_act_after_action(t, p, action)
            &&& final(table).current_turn == next_seat(ps, s as int, 1)
            &&& *final(table) == (Table {
                players: final(table).players,
                pot: final(table).pot,
                current_bet: final(table).current_bet,
                players_acted: final(table).players_acted,
                players_to_act: final(table).players_to_act,
                current_turn: final(table).current_turn,
                last_action_ts: now,
                ..t
            })
        }),
{
    let p = table.players[s];
    let owed_now: u64 = if table.current_bet > p.current_bet {
        table.current_bet - p.current_bet
    } else {
        0
    };
    let ghost t0 = *table;
    let amount: u64 = match action {
        PlayerAction::Fold => 0,
        PlayerAction::Check => 0,
        PlayerAction::Call => if owed_now < p.chip_count {
            owed_now
        } else {
            p.chip_count
        },
        PlayerAction::Raise(x) => owed_now + x,
        PlayerAction::AllIn => p.chip_count,
    };
    assert(amount == wager(t0.current_bet, p, action));
    let moved = contribute(table, s, amount, false);
    assert(moved is Ok);
    let ghost t1 = *table;
    let mut q = table.players[s];
    q.has_acted = true;
    q.time_bank_remaining = tb;
    match action {
        PlayerAction::Fold => {
            q.is_active = false;
            table.players_to_act = if table.players_to_act > 0 {
                table.players_to_act - 1
            } else {
                0
            };
        },
        PlayerAction::Check => {
            table.players_acted = if table.players_acted < 255 {
                table.players_acted + 1
            } else {
                255
            };
        },
        PlayerAction::Call => {
            if q.chip_count == 0 {
                q.is_all_in = true;
                table.players_to_act = if table.players_to_act > 0 {
                    table.players_to_act - 1
                } else {
                    0
                };
            } else {
                table.players_acted = if table.players_acted < 255 {
                    table.players_acted + 1
                } else {
                    255
                };
            }
        },
        PlayerAction::Raise(_) => {
            table.current_bet = q.current_bet;
            table.players_acted = 1;
        },
        PlayerAction::AllIn => {
            q.is_all_in = true;
            if q.current_bet > table.current_bet {
                table.current_bet = q.current_bet;
                table.players_acted = 1;
            } else {
                table.players_to_act = if table.players_to_act > 0 {
                    table.players_to_act - 1
                } else {
                    0
                };
            }
        },
    }
    table.players.set(s, q);
    table.last_action_ts = now;
    proof {
        let ps0 = t0.players@;
        let ps1 = t1.players@;
        lemma_elem_le_sum(contributions(ps0), s as int);
        lemma_elem_le_sum(stacks(ps0), s as int);
        assert(contributions(ps0)[s as int] == p.total_contributed);
        assert(stacks(ps0)[s as int] == p.chip_count);
        assert(p.current_bet <= p.total_contributed);
        assert(q == seat_after_action(t0.current_bet, p, action, tb as int));
        assert(table.players@ =~= ps0.update(s as int, q));
        assert(stacks(table.players@) =~= stacks(ps1));
        assert(contributions(table.players@) =~= contributions(ps1));
        assert forall|i: int| 0 <= i < table.players@.len() implies #[trigger] table.players@[i].player_id == i
            && table.players@[i].current_bet <= table.players@[i].total_contributed
            && table.players@[i].current_bet <= table.current_bet by {
            assert(t0.current_bet <= table.current_bet);
            if i != s as int {
                assert(table.players@[i] == ps0[i]);
                assert(ps0[i].current_bet <= t0.current_bet);
            } else {
                assert(ps0[i] == p);
                assert(p.current_bet <= t0.current_bet);
                assert(q.current_bet <= table.current_bet);
            }
        }
    }
    advance_turn(table);
}

/// Validates and applies one betting action of seat `seat`, signed by
/// `signer` at time `now`, then passes the turn on, and hands back the audit
/// record of the action (its amount is not part of it). A refused action
/// leaves the table as it was and makes no record.
pub fn submit_action(
    table: &mut Table,
    seat: u8,
    signer: &Pubkey,
    action_type: u8,
    raise_amount: u64,
    now: i64,
) -> (r: Result<(ActionSubmitted, EncryptedAction), PokerError>)
    requires
        old(table).wf(),
    ensures
        final(table).wf(),
        r is Err <==> action_error(*old(table), seat, *signer, action_type, raise_amount, now) is Some,
        r is Err ==> r->Err_0 == action_error(
            *old(table),
            seat,
            *signer,
            action_type,
            raise_amount,
            now,
        )->Some_0 && *final(table) == *old(table),
        r is Ok ==> ({
            let t = *old(table);
            let p = t.players@[seat as int];
            let a = action_of(action_type, raise_amount)->Some_0;
            let tb = time_bank_after(p.time_bank_remaining, now - t.last_action_ts);
            let ps = t.players@.update(seat as int, seat_after_action(t.current_bet, p, a, tb));
            &&& final(table).players@ == ps
            &&& final(table).pot == t.pot + wager(t.current_bet, p, a)
            &&& final(table).current_bet == bet_after_action(t.current_bet, p, a)
            &&& final(table).players_acted == acted_after_action(t, p, a)
            &&& final(table).players_to_act == to_act_after_action(t, p, a)
            &&& final(table).current_turn == next_seat(ps, seat as int, 1)
            &&& final(table).last_action_ts == now
            &&& *final(table) == (Table {
                players: final(table).players,
                pot: final(table).pot,
                current_bet: final(table).current_bet,
                players_acted: final(table).players_acted,
                players_to_act: final(table).players_to_act,
                current_turn: final(table).current_turn,
                last_action_ts: now,
                ..t
            })
            &&& r->Ok_0.0.table_id == t.table_id
            &&& r->Ok_0.0.player_id == seat
            &&& r->Ok_0.0.action_type == action_type
            &&& r->Ok_0.0.next_player == final(table).current_turn
            &&& r->Ok_0.1 == (EncryptedAction {
                player: p.wallet,
                table_id: t.table_id,
                hand_number: t.hand_number,
                action_type,
                timestamp: now,
            })
        }),
{
    let (action, tb) = match check_action(table, seat, signer, action_type, raise_amount, now) {
        Ok(v) => v,
        Err(e) => return Err(e),
    };
    let wallet = table.players[seat as usize].wallet;
    apply_action(table, seat as usize, action, tb, now);
    let record = EncryptedAction {
        player: wallet,
        table_id: table.table_id,
        hand_number: table.hand_number,
        action_type,
        timestamp: now,
    };
    Ok((
        ActionSubmitted {
            table_id: table.table_id,
            player_id: seat,
            action_type,
            next_player: table.current_turn,
        },
        record,
    ))
}

} // verus!
