//! Showdown settlement: accepting the attested result of the showdown
//! evaluation once, paying the winners, and archiving the hand.
use vstd::prelude::*;
use crate::dealing::authorized;
use crate::ledger::{capped, lemma_elem_le_sum, lemma_sum_nonneg, lemma_sum_update};
use crate::state::{
    contributions, stacks, sum, BluffRevealed, EncryptedHand, GamePhase, GameResult, Player,
    PokerError, Pubkey, Table, CHIP_SUPPLY, MAX_PLAYERS,
};

verus! {

pub proof fn lemma_sum_prefix(s: Seq<u64>, k: int)
    requires
        0 <= k <= s.len(),
    ensures
        sum(s.take(k)) <= sum(s),
        k < s.len() ==> sum(s.take(k + 1)) == sum(s.take(k)) + s[k],
    decreases s.len(),
{
    if k < s.len() {
        assert(s.take(k + 1).drop_last() =~= s.take(k));
    }
    if k == s.len() {
        assert(s.take(k) =~= s);
    } else {
        lemma_sum_prefix(s.drop_last(), k);
        assert(s.drop_last().take(k) =~= s.take(k));
        lemma_sum_nonneg(s.drop_last());
    }
}

/// Chips that the first `k` payouts award to `seat`.
pub open spec fn won(winners: Seq<u8>, payouts: Seq<u64>, seat: int, k: int) -> int
    decreases k,
{
    if k <= 0 {
        0
    } else {
        won(winners, payouts, seat, k - 1) + if winners[k - 1] == seat {
            payouts[k - 1] as int
        } else {
            0
        }
    }
}

proof fn lemma_won_bounded(winners: Seq<u8>, payouts: Seq<u64>, seat: int, k: int)
    requires
        0 <= k <= payouts.len(),
        winners.len() == payouts.len(),
    ensures
        0 <= won(winners, payouts, seat, k) <= sum(payouts.take(k)),
    decreases k,
{
    if k > 0 {
        lemma_won_bounded(winners, payouts, seat, k - 1);
        lemma_sum_prefix(payouts, k - 1);
    }
}

/// The most a seat can win: the pots at every level it reached, that is every
/// seat's contribution capped at its own.
pub open spec fn winnable(t: Table, seat: int) -> int {
    let c = contributions(t.players@);
    capped(c, c[seat] as int, c.len() as int)
}

/// The largest contribution among the first `j` seats other than seat `i`.
pub open spec fn others_max(c: Seq<u64>, i: int, j: int) -> int
    decreases j,
{
    if j <= 0 {
        0
    } else if j - 1 != i && c[j - 1] > others_max(c, i, j - 1) {
        c[j - 1] as int
    } else {
        others_max(c, i, j - 1)
    }
}

/// What seat `i` put in beyond every other seat's contribution: a level that
/// only this seat reached, which goes back to it.
pub open spec fn unmatched(t: Table, i: int) -> int {
    let c = contributions(t.players@);
    let m = others_max(c, i, c.len() as int);
    if c[i] > m {
        c[i] - m
    } else {
        0
    }
}

/// Each row of an attested result names a seat that has not folded, there is
/// one payout per winner, and no more is paid out than the pot holds.
pub open spec fn rows_fit(t: Table, winners: Seq<u8>, payouts: Seq<u64>) -> bool {
    &&& winners.len() == payouts.len()
    &&& 1 <= winners.len() <= MAX_PLAYERS
    &&& forall|k: int|
        #![trigger winners[k]]
        0 <= k < winners.len() ==> {
            &&& winners[k] < t.players@.len()
            &&& t.players@[winners[k] as int].is_active
        }
    &&& sum(payouts) <= t.pot
}

/// Every seat, over all of its rows, is paid no more than the side pots it
/// can win, and at least the part of its contribution no other seat matched.
pub open spec fn seats_fit(t: Table, winners: Seq<u8>, payouts: Seq<u64>) -> bool {
    forall|i: int|
        0 <= i < t.players@.len() ==> {
            &&& #[trigger] won(winners, payouts, i, winners.len() as int) <= winnable(t, i)
            &&& won(winners, payouts, i, winners.len() as int) >= unmatched(t, i)
        }
}

/// An attested result fits the hand: its rows fit, and so does what each seat
/// receives in total.
pub open spec fn result_fits(t: Table, winners: Seq<u8>, payouts: Seq<u64>) -> bool {
    rows_fit(t, winners, payouts) && seats_fit(t, winners, payouts)
}

/// What the rows of a result pay to `seat`.
fn won_by(winners: &Vec<u8>, payouts: &Vec<u64>, seat: usize) -> (r: u64)
    requires
        winners@.len() == payouts@.len(),
        sum(payouts@) <= u64::MAX,
    ensures
        r == won(winners@, payouts@, seat as int, winners@.len() as int),
{
    let mut acc: u64 = 0;
    let mut k: usize = 0;
    while k < winners.len()
        invariant
            0 <= k <= winners@.len(),
            winners@.len() == payouts@.len(),
            sum(payouts@) <= u64::MAX,
            acc == won(winners@, payouts@, seat as int, k as int),
        decreases winners@.len() - k,
    {
        proof {
            lemma_won_bounded(winners@, payouts@, seat as int, k as int + 1);
            lemma_sum_prefix(payouts@, k as int + 1);
        }
        if winners[k] as usize == seat {
            acc = acc + payouts[k];
        }
        k = k + 1;
    }
    acc
}

/// The largest contribution of any seat other than `i`.
fn others_top(table: &Table, i: usize) -> (r: u64)
    ensures
        r == others_max(contributions(table.players@), i as int, table.players@.len() as int),
{
    let ghost c = contributions(table.players@);
    let mut m: u64 = 0;
    let mut j: usize = 0;
    while j < table.players.len()
        invariant
            0 <= j <= table.players@.len(),
            c == contributions(table.players@),
            m == others_max(c, i as int, j as int),
        decreases table.players@.len() - j,
    {
        let v = table.players[j].total_contributed;
        assert(v == c[j as int]);
        if j != i && v > m {
            m = v;
        }
        j = j + 1;
    }
    m
}

/// Checks the per-seat totals of a result whose rows fit.
fn seats_check(table: &Table, winners: &Vec<u8>, payouts: &Vec<u64>) -> (r: bool)
    requires
        table.wf(),
        rows_fit(*table, winners@, payouts@),
    ensures
        r == seats_fit(*table, winners@, payouts@),
{
    let n = table.players.len();
    let mut i: usize = 0;
    while i < n
        invariant
            0 <= i <= n,
            n == table.players@.len(),
            table.wf(),
            rows_fit(*table, winners@, payouts@),
            forall|j: int|
                0 <= j < i ==> {
                    &&& #[trigger] won(winners@, payouts@, j, winners@.len() as int) <= winnable(*table, j)
                    &&& won(winners@, payouts@, j, winners@.len() as int) >= unmatched(*table, j)
                },
        decreases n - i,
    {
        let got = won_by(winners, payouts, i);
        if got > winnable_amount(table, i) {
            return false;
        }
        let own = table.players[i].total_contributed;
        let top = others_top(table, i);
        assert(own == contributions(table.players@)[i as int]);
        if own > top && got < own - top {
            return false;
        }
        i = i + 1;
    }
    true
}

/// What seat `w` can win at most.
fn winnable_amount(table: &Table, w: usize) -> (r: u64)
    requires
        table.wf(),
        w < table.players@.len(),
    ensures
        r == winnable(*table, w as int),
{
    let ghost c = contributions(table.players@);
    let cap = table.players[w].total_contributed;
    let n = table.players.len();
    let mut total: u64 = 0;
    let mut j: usize = 0;
    while j < n
        invariant
            0 <= j <= n,
            n == table.players@.len(),
            c == contributions(table.players@),
            cap == c[w as int],
            w < n,
            total == capped(c, cap as int, j as int),
            sum(c) == table.pot,
            table.pot <= CHIP_SUPPLY,
        decreases n - j,
    {
        proof {
            crate::ledger::lemma_capped_mono(c, cap as int, cap as int, j as int + 1);
            lemma_sum_prefix(c, j as int + 1);
        }
        let v = table.players[j].total_contributed;
        assert(v == c[j as int]);
        total = total + if v < cap {
            v
        } else {
            cap
        };
        j = j + 1;
    }
    total
}

/// Why a showdown result is refused; `None` when it is accepted.
pub open spec fn result_error(
    t: Table,
    mxe: Pubkey,
    winners: Seq<u8>,
    payouts: Seq<u64>,
    proof_verified: bool,
) -> Option<PokerError> {
    if !authorized(t, mxe) {
        Some(PokerError::UnauthorizedCallback)
    } else if t.halted {
        Some(PokerError::InvalidGame)
    } else if t.phase != GamePhase::Showdown || !t.awaiting_callback {
        Some(PokerError::InvalidPhase)
    } else if !proof_verified || !result_fits(t, winners, payouts) {
        Some(PokerError::InvalidProof)
    } else {
        None
    }
}

/// A result whose proof fails verification, arriving when a result is
/// awaited, halts the hand.
pub open spec fn halts(t: Table, mxe: Pubkey, proof_verified: bool) -> bool {
    &&& authorized(t, mxe)
    &&& !t.halted
    &&& t.phase == GamePhase::Showdown
    &&& t.awaiting_callback
    &&& !proof_verified
}

/// Seat `i` after the payouts.
pub open spec fn paid_seat(p: Player, winners: Seq<u8>, payouts: Seq<u64>, i: int) -> Player {
    Player { chip_count: (p.chip_count + won(winners, payouts, i, winners.len() as int)) as u64, ..p }
}

fn payouts_fit(table: &Table, winners: &Vec<u8>, payouts: &Vec<u64>) -> (r: bool)
    requires
        table.wf(),
    ensures
        r == rows_fit(*table, winners@, payouts@),
{
    if winners.len() != payouts.len() || winners.len() == 0 || winners.len() > MAX_PLAYERS {
        return false;
    }
    let mut total: u64 = 0;
    let mut k: usize = 0;
    while k < winners.len()
        invariant
            0 <= k <= winners@.len(),
            winners@.len() == payouts@.len(),
            total == sum(payouts@.take(k as int)),
            total <= table.pot,
            table.wf(),
            forall|j: int|
                #![trigger winners@[j]]
                0 <= j < k ==> {
                    &&& winners@[j] < table.players@.len()
                    &&& table.players@[winners@[j] as int].is_active
                },
        decreases winners@.len() - k,
    {
        let w = winners[k];
        if w as usize >= table.players.len() || !table.players[w as usize].is_active {
            assert(!rows_fit(*table, winners@, payouts@)) by {
                assert(winners@[k as int] == w);
            }
            return false;
        }
        proof {
            lemma_sum_prefix(payouts@, k as int);
        }
        if payouts[k] > table.pot - total {
            proof {
                lemma_sum_prefix(payouts@, k as int + 1);
            }
            return false;
        }
        total = total + payouts[k];
        k = k + 1;
    }
    assert(payouts@.take(k as int) =~= payouts@);
    true
}

/// Accepts the attested showdown result once, while the table awaits it:
/// each winner's stack grows by their payouts, the hand is complete, and the
/// result is archived with every seated player. `proof_verified` is the
/// verdict of the attestation check on the result's proof; a result whose
/// proof fails halts the hand, and no later result is accepted for it.
pub fn on_showdown_result(
    table: &mut Table,
    mxe: &Pubkey,
    winners: &Vec<u8>,
    payouts: &Vec<u64>,
    winning_hand_category: u8,
    proof_verified: bool,
    proof_hash: Pubkey,
    now: i64,
) -> (r: Result<GameResult, PokerError>)
    requires
        old(table).wf(),
    ensures
        final(table).wf(),
        r is Err <==> result_error(*old(table), *mxe, winners@, payouts@, proof_verified) is Some,
        r is Err ==> r->Err_0 == result_error(
            *old(table),
            *mxe,
            winners@,
            payouts@,
            proof_verified,
        )->Some_0,
        r is Err ==> *final(table) == if halts(*old(table), *mxe, proof_verified) {
            Table { halted: true, ..*old(table) }
        } else {
            *old(table)
        },
        r is Ok ==> ({
            let t = *old(table);
            let g = r->Ok_0;
            &&& final(table).players@.len() == t.players@.len()
            &&& forall|i: int|
                0 <= i < t.players@.len() ==> #[trigger] final(table).players@[i] == paid_seat(
                    t.players@[i],
                    winners@,
                    payouts@,
                    i,
                )
            &&& *final(table) == (Table {
                players: final(table).players,
                phase: GamePhase::Complete,
                awaiting_callback: false,
                ..t
            })
            &&& g.table_id == t.table_id
            &&& g.hand_number == t.hand_number
            &&& g.winner_seats@ == winners@
            &&& g.payouts@ == payouts@
            &&& g.winners@.len() == winners@.len()
            &&& forall|k: int|
                0 <= k < winners@.len() ==> #[trigger] g.winners@[k] == t.players@[winners@[k] as int].wallet
            &&& g.participants@.len() == t.players@.len()
            &&& forall|i: int|
                0 <= i < t.players@.len() ==> #[trigger] g.participants@[i] == t.players@[i].wallet
            &&& g.winning_hand_category == winning_hand_category
            &&& g.community_cards@ == t.community_cards@
            &&& g.proof_hash == proof_hash
            &&& g.timestamp == now
        }),
{
    if !crate::betting::same_key(mxe, &table.arcium_mxe_account) {
        return Err(PokerError::UnauthorizedCallback);
    }
    if table.halted {
        return Err(PokerError::InvalidGame);
    }
    if !matches!(table.phase, GamePhase::Showdown) || !table.awaiting_callback {
        return Err(PokerError::InvalidPhase);
    }
    if !proof_verified {
        table.halted = true;
        return Err(PokerError::InvalidProof);
    }
    if !payouts_fit(table, winners, payouts) || !seats_check(table, winners, payouts) {
        return Err(PokerError::InvalidProof);
    }
    let ghost t0 = *table;
    let mut participants: Vec<Pubkey> = Vec::new();
    let mut i: usize = 0;
    while i < table.players.len()
        invariant
            0 <= i <= table.players@.len(),
            participants@.len() == i,
            forall|j: int| 0 <= j < i ==> #[trigger] participants@[j] == table.players@[j].wallet,
        decreases table.players@.len() - i,
    {
        participants.push(table.players[i].wallet);
        i = i + 1;
    }
    let mut winner_keys: Vec<Pubkey> = Vec::new();
    let mut k: usize = 0;
    while k < winners.len()
        invariant
            0 <= k <= winners@.len(),
            *table == t0,
            result_fits(t0, winners@, payouts@),
            winner_keys@.len() == k,
            forall|j: int|
                0 <= j < k ==> #[trigger] winner_keys@[j] == t0.players@[winners@[j] as int].wallet,
        decreases winners@.len() - k,
    {
        assert(winners@[k as int] < t0.players@.len());
        winner_keys.push(table.players[winners[k] as usize].wallet);
        k = k + 1;
    }
    let mut k: usize = 0;
    while k < winners.len()
        invariant
            0 <= k <= winners@.len(),
            t0.wf(),
            t0.phase == GamePhase::Showdown,
            result_fits(t0, winners@, payouts@),
            table.players@.len() == t0.players@.len(),
            forall|i: int|
                0 <= i < t0.players@.len() ==> #[trigger] table.players@[i] == (Player {
                    chip_count: (t0.players@[i].chip_count + won(winners@, payouts@, i, k as int)) as u64,
                    ..t0.players@[i]
                }),
            sum(stacks(table.players@)) == sum(stacks(t0.players@)) + sum(payouts@.take(k as int)),
            *table == (Table { players: table.players, ..t0 }),
        decreases winners@.len() - k,
    {
        let w = winners[k] as usize;
        assert(winners@[k as int] < t0.players@.len());
        let mut p = table.players[w];
        proof {
            lemma_sum_prefix(payouts@, k as int);
            lemma_sum_prefix(payouts@, k as int + 1);
            lemma_elem_le_sum(stacks(table.players@), w as int);
            assert(stacks(table.players@)[w as int] == p.chip_count);
            assert(sum(stacks(t0.players@)) + t0.pot <= CHIP_SUPPLY);
        }
        p.chip_count = p.chip_count + payouts[k];
        let ghost before = table.players@;
        table.players.set(w, p);
        proof {
            assert(stacks(table.players@) =~= stacks(before).update(w as int, p.chip_count));
            lemma_sum_update(stacks(before), w as int, p.chip_count);
            assert forall|i: int| 0 <= i < t0.players@.len() implies #[trigger] table.players@[i] == (Player {
                chip_count: (t0.players@[i].chip_count + won(winners@, payouts@, i, k as int + 1)) as u64,
                ..t0.players@[i]
            }) by {
                assert(before[i] == (Player {
                    chip_count: (t0.players@[i].chip_count + won(winners@, payouts@, i, k as int)) as u64,
                    ..t0.players@[i]
                }));
                lemma_won_bounded(winners@, payouts@, i, k as int);
                lemma_won_bounded(winners@, payouts@, i, k as int + 1);
                lemma_sum_prefix(payouts@, k as int + 1);
                lemma_sum_prefix(payouts@, winners@.len() as int);
                assert(payouts@.take(winners@.len() as int) =~= payouts@);
                lemma_elem_le_sum(stacks(t0.players@), i);
                assert(stacks(t0.players@)[i] == t0.players@[i].chip_count);
            }
        }
        k = k + 1;
    }
    table.phase = GamePhase::Complete;
    table.awaiting_callback = false;
    proof {
        let ps = table.players@;
        assert(payouts@.take(winners@.len() as int) =~= payouts@);
        assert(contributions(ps) =~= contributions(t0.players@));
        assert forall|i: int| 0 <= i < ps.len() implies #[trigger] ps[i].player_id == i
            && ps[i].current_bet <= ps[i].total_contributed && ps[i].current_bet
            <= table.current_bet by {
            assert(t0.players@[i].player_id == i);
        }
        assert forall|i: int| 0 <= i < t0.players@.len() implies #[trigger] table.players@[i] == paid_seat(
            t0.players@[i],
            winners@,
            payouts@,
            i,
        ) by {}
    }
    Ok(GameResult {
        table_id: table.table_id,
        hand_number: table.hand_number,
        winner_seats: winners.clone(),
        winners: winner_keys,
        payouts: payouts.clone(),
        winning_hand_category,
        community_cards: table.community_cards.clone(),
        participants,
        proof_hash,
        timestamp: now,
    })
}

/// Why a bluff reveal is refused; `None` when it is accepted.
pub open spec fn bluff_error(hand: EncryptedHand, game_id: u64, proof_verified: bool) -> Option<PokerError> {
    if hand.hand_number != game_id {
        Some(PokerError::InvalidGame)
    } else if !proof_verified {
        Some(PokerError::InvalidProof)
    } else {
        None
    }
}

/// Publishes a player's hole cards after the hand, once the attestation check
/// (`proof_verified`) has tied them to the committed hand of that game.
pub fn verify_bluff_proof(
    hand: &EncryptedHand,
    game_id: u64,
    revealed_card1: u8,
    revealed_card2: u8,
    proof_verified: bool,
) -> (r: Result<BluffRevealed, PokerError>)
    ensures
        r is Err <==> bluff_error(*hand, game_id, proof_verified) is Some,
        r is Err ==> r->Err_0 == bluff_error(*hand, game_id, proof_verified)->Some_0,
        r is Ok ==> r->Ok_0.player == hand.player && r->Ok_0.game_id == game_id && r->Ok_0.card1
            == revealed_card1 && r->Ok_0.card2 == revealed_card2,
{
    if hand.hand_number != game_id {
        return Err(PokerError::InvalidGame);
    }
    if !proof_verified {
        return Err(PokerError::InvalidProof);
    }
    Ok(BluffRevealed {
        player: hand.player,
        game_id,
        card1: revealed_card1,
        card2: revealed_card2,
    })
}

} // verus!
