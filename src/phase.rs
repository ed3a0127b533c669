//! The phase controller: creating a table, seating players, starting a hand
//! with its blinds, and moving through the streets in their fixed order.
use vstd::prelude::*;
use crate::betting::{advance_turn, next_seat};
use crate::ledger::{
    after_contribution, contribute, lemma_elem_le_sum, lemma_sum_nonneg, lemma_sum_push,
    lemma_sum_zeros,
};
use crate::state::{
    contributions, count_must_act, phase_rank, stacks, GamePhase, GameStarted,
    Player, PlayerJoined, PokerError, Pubkey, ShowdownTriggered, StreetAdvanced, Table,
    TableCreated, BOARD_SLOTS, CHIP_SUPPLY, MAX_PLAYERS, STARTING_CHIPS, TIME_BANK_SECONDS,
    UNREVEALED,
};

verus! {

/// A token holding presented for a token-gated table.
#[derive(Clone, Copy, Debug)]
pub struct TokenHolding {
    pub mint: Pubkey,
    pub amount: u64,
}

/// Why a table with these settings cannot be created; `None` when it can.
pub open spec fn create_error(small_blind: u64, big_blind: u64, min_players: u8, max_players: u8) -> Option<
    PokerError,
> {
    if small_blind == 0 || big_blind != 2 * small_blind {
        Some(PokerError::InvalidBlind)
    } else if min_players < 2 || min_players > max_players || max_players > MAX_PLAYERS {
        Some(PokerError::InvalidPlayerCount)
    } else {
        None
    }
}

pub open spec fn board_empty(cards: Seq<u8>) -> bool {
    cards.len() == BOARD_SLOTS && forall|i: int| 0 <= i < cards.len() ==> cards[i] == UNREVEALED
}

/// Creates an empty table waiting for players.
pub fn create_table(
    table_id: u64,
    name: Pubkey,
    creator: Pubkey,
    small_blind: u64,
    big_blind: u64,
    min_players: u8,
    max_players: u8,
    token_gate_mint: Option<Pubkey>,
    token_gate_amount: u64,
    now: i64,
) -> (r: Result<(Table, TableCreated), PokerError>)
    ensures
        r is Err <==> create_error(small_blind, big_blind, min_players, max_players) is Some,
        r is Err ==> r->Err_0 == create_error(small_blind, big_blind, min_players, max_players)->Some_0,
        r is Ok ==> ({
            let t = r->Ok_0.0;
            &&& t.wf()
            &&& t.table_id == table_id
            &&& t.name == name
            &&& t.creator == creator
            &&& t.small_blind == small_blind
            &&& t.big_blind == big_blind
            &&& t.min_players == min_players
            &&& t.max_players == max_players
            &&& t.phase == GamePhase::Waiting
            &&& t.players@.len() == 0
            &&& t.pot == 0
            &&& t.current_bet == 0
            &&& t.hand_number == 0
            &&& board_empty(t.community_cards@)
            &&& !t.awaiting_callback
            &&& !t.halted
            &&& t.token_gate_mint == token_gate_mint
            &&& t.token_gate_amount == token_gate_amount
            &&& t.last_action_ts == now
            &&& r->Ok_0.1.table_id == table_id
            &&& r->Ok_0.1.creator == creator
            &&& r->Ok_0.1.small_blind == small_blind
            &&& r->Ok_0.1.big_blind == big_blind
        }),
{
    if small_blind == 0 || small_blind > u64::MAX / 2 || big_blind != small_blind * 2 {
        return Err(PokerError::InvalidBlind);
    }
    if min_players < 2 || min_players > max_players || max_players as usize > MAX_PLAYERS {
        return Err(PokerError::InvalidPlayerCount);
    }
    let table = Table {
        table_id,
        name,
        creator,
        small_blind,
        big_blind,
        min_players,
        max_players,
        current_players: 0,
        phase: GamePhase::Waiting,
        pot: 0,
        current_bet: 0,
        dealer_seat: 0,
        current_turn: 0,
        hand_number: 0,
        arcium_mxe_account: [0u8; 32],
        arcium_computation_id: 0,
        encrypted_deck_hash: [0u8; 32],
        community_cards: vec![UNREVEALED, UNREVEALED, UNREVEALED, UNREVEALED, UNREVEALED],
        deck_cursor: 0,
        awaiting_callback: false,
        halted: false,
        last_action_ts: now,
        players_acted: 0,
        players_to_act: 0,
        token_gate_mint,
        token_gate_amount,
        players: Vec::new(),
    };
    assert(stacks(table.players@) =~= Seq::<u64>::empty());
    assert(contributions(table.players@) =~= Seq::<u64>::empty());
    Ok((table, TableCreated { table_id, creator, small_blind, big_blind }))
}

/// Why a player cannot join; `None` when they can.
pub open spec fn join_error(t: Table, seat_index: u8, holding: Option<TokenHolding>) -> Option<PokerError> {
    if t.phase != GamePhase::Waiting {
        Some(PokerError::GameAlreadyStarted)
    } else if t.current_players >= t.max_players {
        Some(PokerError::TableFull)
    } else if seat_index >= t.max_players || seat_taken(t.players@, seat_index) {
        Some(PokerError::InvalidSeat)
    } else if t.token_gate_mint is Some && holding is None {
        Some(PokerError::TokenGateRequired)
    } else if t.token_gate_mint is Some && holding->Some_0.mint@ != t.token_gate_mint->Some_0@ {
        Some(PokerError::InvalidTokenMint)
    } else if t.token_gate_mint is Some && holding->Some_0.amount < t.token_gate_amount {
        Some(PokerError::InsufficientTokens)
    } else {
        None
    }
}

pub open spec fn seat_taken(ps: Seq<Player>, seat_index: u8) -> bool {
    exists|i: int| 0 <= i < ps.len() && ps[i].seat_index == seat_index
}

/// A freshly seated player with a starting stack.
pub open spec fn new_player(p: Player, id: u8, wallet: Pubkey, seat_index: u8, now: i64) -> bool {
    &&& p.player_id == id
    &&& p.wallet == wallet
    &&& p.seat_index == seat_index
    &&& p.chip_count == STARTING_CHIPS
    &&& p.current_bet == 0
    &&& p.total_contributed == 0
    &&& p.is_active
    &&& !p.is_all_in
    &&& !p.has_acted
    &&& !p.hole_cards_dealt
    &&& p.time_bank_remaining == TIME_BANK_SECONDS
    &&& p.joined_at == now
}

fn seat_in_use(players: &Vec<Player>, seat_index: u8) -> (r: bool)
    ensures
        r == seat_taken(players@, seat_index),
{
    let mut i: usize = 0;
    while i < players.len()
        invariant
            0 <= i <= players@.len(),
            forall|j: int| 0 <= j < i ==> players@[j].seat_index != seat_index,
        decreases players@.len() - i,
    {
        if players[i].seat_index == seat_index {
            return true;
        }
        i = i + 1;
    }
    false
}

/// Seats a player with a starting stack, checking the token gate when the
/// table has one.
pub fn join_table(
    table: &mut Table,
    seat_index: u8,
    wallet: Pubkey,
    holding: Option<TokenHolding>,
    now: i64,
) -> (r: Result<PlayerJoined, PokerError>)
    requires
        old(table).wf(),
    ensures
        final(table).wf(),
        r is Err <==> join_error(*old(table), seat_index, holding) is Some,
        r is Err ==> r->Err_0 == join_error(*old(table), seat_index, holding)->Some_0 && *final(table)
            == *old(table),
        r is Ok ==> ({
            let t = *old(table);
            let n = t.players@.len();
            &&& final(table).players@.len() == n + 1
            &&& final(table).players@.take(n as int) == t.players@
            &&& new_player(final(table).players@[n as int], n as u8, wallet, seat_index, now)
            &&& *final(table) == (Table {
                players: final(table).players,
                current_players: (t.current_players + 1) as u8,
                ..t
            })
            &&& r->Ok_0.table_id == t.table_id
            &&& r->Ok_0.player == wallet
            &&& r->Ok_0.seat == seat_index
        }),
{
    if !matches!(table.phase, GamePhase::Waiting) {
        return Err(PokerError::GameAlreadyStarted);
    }
    if table.current_players >= table.max_players {
        return Err(PokerError::TableFull);
    }
    if seat_index >= table.max_players || seat_in_use(&table.players, seat_index) {
        return Err(PokerError::InvalidSeat);
    }
    match &table.token_gate_mint {
        Some(mint) => match &holding {
            None => return Err(PokerError::TokenGateRequired),
            Some(h) => {
                if !crate::betting::same_key(&h.mint, mint) {
                    return Err(PokerError::InvalidTokenMint);
                }
                if h.amount < table.token_gate_amount {
                    return Err(PokerError::InsufficientTokens);
                }
            },
        },
        None => {},
    }
    let id = table.current_players;
    let player = Player {
        player_id: id,
        wallet,
        seat_index,
        chip_count: STARTING_CHIPS,
        current_bet: 0,
        total_contributed: 0,
        is_active: true,
        is_all_in: false,
        has_acted: false,
        time_bank_remaining: TIME_BANK_SECONDS,
        encrypted_hand_hash: [0u8; 32],
        hole_cards_dealt: false,
        joined_at: now,
        last_reaction: 0,
        last_reaction_ts: 0,
        last_message: [0u8; 64],
        last_message_ts: 0,
    };
    let ghost ps0 = table.players@;
    table.players.push(player);
    table.current_players = id + 1;
    proof {
        let ps = table.players@;
        assert(stacks(ps) =~= stacks(ps0).push(STARTING_CHIPS));
        assert(contributions(ps) =~= contributions(ps0).push(0));
        lemma_sum_push(stacks(ps0), STARTING_CHIPS);
        lemma_sum_push(contributions(ps0), 0);
        assert(ps.take(ps0.len() as int) =~= ps0);
        assert forall|i: int| 0 <= i < ps.len() implies #[trigger] ps[i].player_id == i
            && ps[i].current_bet <= ps[i].total_contributed && ps[i].current_bet
            <= table.current_bet by {
            if i < ps0.len() {
                assert(ps[i] == ps0[i]);
            }
        }
        assert(ps0.len() < MAX_PLAYERS);
        assert(STARTING_CHIPS * ps.len() == STARTING_CHIPS * ps0.len() + STARTING_CHIPS) by (nonlinear_arith)
            requires ps.len() == ps0.len() + 1;
        assert(STARTING_CHIPS * ps.len() <= CHIP_SUPPLY) by (nonlinear_arith)
            requires ps.len() <= MAX_PLAYERS;
    }
    Ok(PlayerJoined { table_id: table.table_id, player: wallet, seat: seat_index })
}

/// A seat at the start of a hand: nothing wagered yet, and only a seat with
/// chips takes part.
pub open spec fn hand_reset(p: Player) -> Player {
    Player {
        current_bet: 0,
        total_contributed: 0,
        is_active: p.chip_count > 0,
        is_all_in: false,
        has_acted: false,
        hole_cards_dealt: false,
        ..p
    }
}

/// A seat at the start of a betting round.
pub open spec fn round_reset(p: Player) -> Player {
    Player { current_bet: 0, has_acted: false, ..p }
}

pub open spec fn seat_reset(p: Player, new_hand: bool) -> Player {
    if new_hand {
        hand_reset(p)
    } else {
        round_reset(p)
    }
}

/// A seat after posting a blind, all-in when its stack does not cover it.
pub open spec fn blind_posted(p: Player, blind: u64) -> Player {
    let amount = if blind <= p.chip_count {
        blind
    } else {
        p.chip_count
    };
    Player { is_all_in: p.chip_count <= blind, ..after_contribution(p, amount as int) }
}

pub open spec fn small_blind_seat(dealer: u8, n: int) -> int {
    (dealer + 1) % n
}

pub open spec fn big_blind_seat(dealer: u8, n: int) -> int {
    (small_blind_seat(dealer, n) + 1) % n
}

/// The seats after the small and the big blind have been posted by the two
/// seats after the dealer.
pub open spec fn blinds_on(ps: Seq<Player>, dealer: u8, small: u64, big: u64) -> Seq<Player> {
    let sb = small_blind_seat(dealer, ps.len() as int);
    let bb = big_blind_seat(dealer, ps.len() as int);
    let ps1 = ps.update(sb, blind_posted(ps[sb], small));
    ps1.update(bb, blind_posted(ps1[bb], big))
}

/// The larger of the two blinds as posted.
pub open spec fn blind_bet(ps: Seq<Player>, dealer: u8) -> u64 {
    let sb = ps[small_blind_seat(dealer, ps.len() as int)].current_bet;
    let bb = ps[big_blind_seat(dealer, ps.len() as int)].current_bet;
    if sb <= bb {
        bb
    } else {
        sb
    }
}

/// Resets every seat for a new hand or a new betting round.
fn reset_seats(table: &mut Table, new_hand: bool)
    ensures
        final(table).players@ == old(table).players@.map_values(|p: Player| seat_reset(p, new_hand)),
        *final(table) == (Table { players: final(table).players, ..*old(table) }),
{
    let n = table.players.len();
    let mut i: usize = 0;
    while i < n
        invariant
            0 <= i <= n,
            n == old(table).players@.len(),
            table.players@.len() == n,
            forall|j: int| 0 <= j < i ==> table.players@[j] == seat_reset(old(table).players@[j], new_hand),
            forall|j: int| i <= j < n ==> table.players@[j] == old(table).players@[j],
            *table == (Table { players: table.players, ..*old(table) }),
        decreases n - i,
    {
        let p = table.players[i];
        let mut q = p;
        q.current_bet = 0;
        q.has_acted = false;
        if new_hand {
            q.total_contributed = 0;
            q.is_active = p.chip_count > 0;
            q.is_all_in = false;
            q.hole_cards_dealt = false;
        }
        table.players.set(i, q);
        i = i + 1;
    }
    assert(table.players@ =~= old(table).players@.map_values(|p: Player| seat_reset(p, new_hand)));
}

/// Number of seats that still owe decisions.
fn count_ready(players: &Vec<Player>) -> (r: u8)
    requires
        players@.len() <= 255,
    ensures
        r == count_must_act(players@, players@.len() as int),
        r <= players@.len(),
{
    let mut c: u8 = 0;
    let mut i: usize = 0;
    while i < players.len()
        invariant
            0 <= i <= players@.len() <= 255,
            c == count_must_act(players@, i as int),
            c <= i,
        decreases players@.len() - i,
    {
        if players[i].is_active && !players[i].is_all_in {
            c = c + 1;
        }
        i = i + 1;
    }
    c
}

/// Posts the small and the big blind from the two seats after the dealer; the
/// bet to match becomes the larger of the two posts.
fn post_blinds(table: &mut Table)
    requires
        old(table).wf(),
        old(table).phase == GamePhase::PreFlop,
        forall|i: int| 0 <= i < old(table).players@.len() ==> #[trigger] old(table).players@[i].current_bet == 0,
    ensures
        final(table).wf(),
        ({
            let t = *old(table);
            let ps = blinds_on(t.players@, t.dealer_seat, t.small_blind, t.big_blind);
            let n = t.players@.len() as int;
            &&& final(table).players@ == ps
            &&& final(table).pot == t.pot + ps[small_blind_seat(t.dealer_seat, n)].current_bet
                + ps[big_blind_seat(t.dealer_seat, n)].current_bet
            &&& final(table).current_bet == blind_bet(ps, t.dealer_seat)
        }),
        *final(table) == (Table {
            players: final(table).players,
            pot: final(table).pot,
            current_bet: final(table).current_bet,
            ..*old(table)
        }),
{
    let ghost t0 = *table;
    let n = table.players.len();
    let sb = (table.dealer_seat as usize + 1) % n;
    let bb: usize = if sb + 1 < n {
        sb + 1
    } else {
        0
    };
    assert(bb as int == (sb as int + 1) % (n as int)) by {
        if sb + 1 == n {
            vstd::arithmetic::div_mod::lemma_mod_self_0(n as int);
        } else {
            vstd::arithmetic::div_mod::lemma_small_mod((sb + 1) as nat, n as nat);
        }
    }
    table.current_bet = if table.big_blind < CHIP_SUPPLY {
        table.big_blind
    } else {
        CHIP_SUPPLY
    };
    proof {
        lemma_elem_le_sum(stacks(t0.players@), sb as int);
        lemma_elem_le_sum(stacks(t0.players@), bb as int);
        lemma_sum_nonneg(stacks(t0.players@));
        assert(stacks(t0.players@)[sb as int] == t0.players@[sb as int].chip_count);
        assert(stacks(t0.players@)[bb as int] == t0.players@[bb as int].chip_count);
        assert(t0.players@[sb as int].current_bet == 0);
        assert(t0.players@[bb as int].current_bet == 0);
        assert(table.wf());
    }
    let small = table.small_blind;
    let big = table.big_blind;
    post_blind(table, sb, small);
    let ghost t1 = *table;
    assert(t1.players@[bb as int] == t0.players@[bb as int]);
    post_blind(table, bb, big);
    let sb_bet = table.players[sb].current_bet;
    let bb_bet = table.players[bb].current_bet;
    table.current_bet = if sb_bet <= bb_bet {
        bb_bet
    } else {
        sb_bet
    };
    proof {
        let ps = table.players@;
        assert(ps =~= blinds_on(t0.players@, t0.dealer_seat, t0.small_blind, t0.big_blind));
        assert forall|i: int| 0 <= i < ps.len() implies #[trigger] ps[i].player_id == i
            && ps[i].current_bet <= ps[i].total_contributed && ps[i].current_bet
            <= table.current_bet by {
            if i != sb as int && i != bb as int {
                assert(ps[i] == t0.players@[i]);
            }
            assert(t1.players@[i].player_id == i);
        }
    }
}

/// Posts one blind from a seat that has not bet yet, all-in when its stack
/// does not cover it; what it posts must not exceed the table's bet.
fn post_blind(table: &mut Table, seat: usize, blind: u64)
    requires
        old(table).wf(),
        old(table).phase == GamePhase::PreFlop,
        seat < old(table).players@.len(),
        old(table).players@[seat as int].current_bet == 0,
        (if blind <= old(table).players@[seat as int].chip_count {
            blind
        } else {
            old(table).players@[seat as int].chip_count
        }) <= old(table).current_bet,
    ensures
        final(table).wf(),
        final(table).players@ == old(table).players@.update(
            seat as int,
            blind_posted(old(table).players@[seat as int], blind),
        ),
        final(table).pot == old(table).pot + final(table).players@[seat as int].current_bet,
        *final(table) == (Table { players: final(table).players, pot: final(table).pot, ..*old(table) }),
{
    let ghost t0 = *table;
    let r = contribute(table, seat, blind, true);
    assert(r is Ok);
    let ghost t1 = *table;
    let mut q = table.players[seat];
    q.is_all_in = q.chip_count == 0;
    table.players.set(seat, q);
    proof {
        let ps = table.players@;
        assert(ps =~= t0.players@.update(seat as int, blind_posted(t0.players@[seat as int], blind)));
        assert(stacks(ps) =~= stacks(t1.players@));
        assert(contributions(ps) =~= contributions(t1.players@));
        assert forall|i: int| 0 <= i < ps.len() implies #[trigger] ps[i].player_id == i
            && ps[i].current_bet <= ps[i].total_contributed && ps[i].current_bet
            <= table.current_bet by {
            if i != seat as int {
                assert(ps[i] == t0.players@[i]);
            }
        }
    }
}

/// Why a hand cannot start; `None` when it can.
pub open spec fn start_error(t: Table) -> Option<PokerError> {
    if t.phase != GamePhase::Waiting && t.phase != GamePhase::Complete {
        Some(PokerError::GameAlreadyStarted)
    } else if t.current_players < t.min_players {
        Some(PokerError::NotEnoughPlayers)
    } else {
        None
    }
}

/// The table of a hand that has just started, before its blinds.
pub open spec fn table_at_hand_start(t: Table, mxe: Pubkey, now: i64) -> Table {
    Table {
        hand_number: (t.hand_number + 1) as u64,
        phase: GamePhase::PreFlop,
        pot: 0,
        current_bet: 0,
        current_turn: 0,
        players_acted: 0,
        deck_cursor: 0,
        awaiting_callback: true,
        arcium_mxe_account: mxe,
        last_action_ts: now,
        ..t
    }
}

/// Starts a new hand: every seat is reset, the two seats after the dealer post
/// the blinds, the board is cleared, and a deck shuffle is requested from the
/// confidential-computation service `mxe` (the table awaits its callback).
/// The first to act is the first seat after the big blind that owes a decision.
pub fn start_game(table: &mut Table, mxe: Pubkey, now: i64) -> (r: Result<GameStarted, PokerError>)
    requires
        old(table).wf(),
        old(table).hand_number < u64::MAX,
    ensures
        final(table).wf(),
        r is Err <==> start_error(*old(table)) is Some,
        r is Err ==> r->Err_0 == start_error(*old(table))->Some_0 && *final(table) == *old(table),
        r is Ok ==> ({
            let t = *old(table);
            let n = t.players@.len() as int;
            let ps = blinds_on(
                t.players@.map_values(|p: Player| hand_reset(p)),
                t.dealer_seat,
                t.small_blind,
                t.big_blind,
            );
            &&& final(table).players@ == ps
            &&& final(table).pot == ps[small_blind_seat(t.dealer_seat, n)].current_bet
                + ps[big_blind_seat(t.dealer_seat, n)].current_bet
            &&& final(table).current_bet == blind_bet(ps, t.dealer_seat)
            &&& final(table).players_to_act == count_must_act(ps, n)
            &&& final(table).current_turn == next_seat(ps, big_blind_seat(t.dealer_seat, n), 1)
            &&& board_empty(final(table).community_cards@)
            &&& *final(table) == (Table {
                players: final(table).players,
                pot: final(table).pot,
                current_bet: final(table).current_bet,
                players_to_act: final(table).players_to_act,
                current_turn: final(table).current_turn,
                community_cards: final(table).community_cards,
                hand_number: (t.hand_number + 1) as u64,
                phase: GamePhase::PreFlop,
                players_acted: 0,
                deck_cursor: 0,
                awaiting_callback: true,
                arcium_mxe_account: mxe,
                last_action_ts: now,
                ..t
            })
            &&& r->Ok_0.table_id == t.table_id
            &&& r->Ok_0.hand_number == t.hand_number + 1
            &&& r->Ok_0.player_count == t.current_players
        }),
{
    if !(matches!(table.phase, GamePhase::Waiting) || matches!(table.phase, GamePhase::Complete)) {
        return Err(PokerError::GameAlreadyStarted);
    }
    if table.current_players < table.min_players {
        return Err(PokerError::NotEnoughPlayers);
    }
    let ghost t0 = *table;
    reset_seats(table, true);
    let ghost ps0 = table.players@;
    table.hand_number = table.hand_number + 1;
    table.phase = GamePhase::PreFlop;
    table.pot = 0;
    table.current_bet = 0;
    table.current_turn = 0;
    table.players_acted = 0;
    table.deck_cursor = 0;
    table.awaiting_callback = true;
    table.arcium_mxe_account = mxe;
    table.last_action_ts = now;
    table.community_cards = vec![UNREVEALED, UNREVEALED, UNREVEALED, UNREVEALED, UNREVEALED];
    proof {
        assert(ps0 =~= t0.players@.map_values(|p: Player| hand_reset(p)));
        assert(stacks(ps0) =~= stacks(t0.players@));
        assert forall|i: int| 0 <= i < ps0.len() implies #[trigger] contributions(ps0)[i] == 0 by {}
        lemma_sum_zeros(contributions(ps0));
        if t0.phase == GamePhase::Waiting {
            assert(STARTING_CHIPS * ps0.len() <= CHIP_SUPPLY) by (nonlinear_arith)
                requires ps0.len() <= MAX_PLAYERS;
        }
        assert forall|i: int| 0 <= i < ps0.len() implies #[trigger] ps0[i].player_id == i
            && ps0[i].current_bet <= ps0[i].total_contributed && ps0[i].current_bet
            <= table.current_bet by {
            assert(ps0[i] == hand_reset(t0.players@[i]));
        }
        assert(table.wf());
    }
    post_blinds(table);
    let ghost ps = table.players@;
    table.players_to_act = count_ready(&table.players);
    let n = table.players.len();
    let sb = (table.dealer_seat as usize + 1) % n;
    let bb: usize = if sb + 1 < n {
        sb + 1
    } else {
        0
    };
    assert(bb as int == (sb as int + 1) % (n as int)) by {
        if sb + 1 == n {
            vstd::arithmetic::div_mod::lemma_mod_self_0(n as int);
        } else {
            vstd::arithmetic::div_mod::lemma_small_mod((sb + 1) as nat, n as nat);
        }
    }
    table.current_turn = bb as u8;
    advance_turn(table);
    assert(board_empty(table.community_cards@));
    Ok(GameStarted {
        table_id: table.table_id,
        hand_number: table.hand_number,
        player_count: table.current_players,
    })
}

/// The street that follows a betting street; `None` outside the streets.
pub open spec fn next_phase(p: GamePhase) -> Option<GamePhase> {
    match p {
        GamePhase::PreFlop => Some(GamePhase::Flop),
        GamePhase::Flop => Some(GamePhase::Turn),
        GamePhase::Turn => Some(GamePhase::River),
        GamePhase::River => Some(GamePhase::Showdown),
        _ => None,
    }
}

/// The betting round is closed once every seat that owes a decision has made it.
pub open spec fn round_closed(t: Table) -> bool {
    t.players_acted >= t.players_to_act
}

pub fn is_betting_complete(table: &Table) -> (r: bool)
    ensures
        r == round_closed(*table),
{
    table.players_acted >= table.players_to_act
}

pub fn phase_to_u8(phase: &GamePhase) -> (r: u8)
    ensures
        r == phase_rank(*phase),
{
    match phase {
        GamePhase::Waiting => 0,
        GamePhase::PreFlop => 1,
        GamePhase::Flop => 2,
        GamePhase::Turn => 3,
        GamePhase::River => 4,
        GamePhase::Showdown => 5,
        GamePhase::Complete => 6,
    }
}

/// Starts a new betting round: nobody has bet or acted in it yet, and the
/// seats that owe a decision are counted afresh from the seats themselves.
/// The first to act is the first seat after the dealer that owes a decision.
fn reset_betting_state(table: &mut Table)
    requires
        old(table).wf(),
        old(table).phase != GamePhase::Waiting,
    ensures
        final(table).wf(),
        ({
            let ps = old(table).players@.map_values(|p: Player| round_reset(p));
            &&& final(table).players@ == ps
            &&& *final(table) == (Table {
                players: final(table).players,
                current_bet: 0,
                players_acted: 0,
                players_to_act: count_must_act(ps, ps.len() as int) as u8,
                current_turn: next_seat(ps, old(table).dealer_seat as int, 1) as u8,
                ..*old(table)
            })
        }),
{
    let ghost t0 = *table;
    reset_seats(table, false);
    table.current_bet = 0;
    table.players_acted = 0;
    table.players_to_act = count_ready(&table.players);
    table.current_turn = table.dealer_seat;
    proof {
        let ps = table.players@;
        assert(ps =~= t0.players@.map_values(|p: Player| round_reset(p)));
        assert(stacks(ps) =~= stacks(t0.players@));
        assert(contributions(ps) =~= contributions(t0.players@));
        assert forall|i: int| 0 <= i < ps.len() implies #[trigger] ps[i].player_id == i
            && ps[i].current_bet <= ps[i].total_contributed && ps[i].current_bet
            <= table.current_bet by {
            assert(ps[i] == round_reset(t0.players@[i]));
        }
    }
    advance_turn(table);
}

/// Why the table cannot move to the next street; `None` when it can.
pub open spec fn advance_error(t: Table) -> Option<PokerError> {
    if !round_closed(t) {
        Some(PokerError::BettingNotComplete)
    } else if next_phase(t.phase) is None || t.awaiting_callback {
        Some(PokerError::InvalidPhase)
    } else {
        None
    }
}

/// Closes the betting round and moves to the next street, requesting the
/// reveal of its community cards (or, after the river, the showdown
/// evaluation); the table then awaits the service's callback.
pub fn deal_community_cards(table: &mut Table) -> (r: Result<StreetAdvanced, PokerError>)
    requires
        old(table).wf(),
    ensures
        final(table).wf(),
        r is Err <==> advance_error(*old(table)) is Some,
        r is Err ==> r->Err_0 == advance_error(*old(table))->Some_0 && *final(table) == *old(table),
        r is Ok ==> ({
            let t = *old(table);
            let ps = t.players@.map_values(|p: Player| round_reset(p));
            &&& final(table).phase == next_phase(t.phase)->Some_0
            &&& final(table).players@ == ps
            &&& *final(table) == (Table {
                players: final(table).players,
                phase: final(table).phase,
                current_bet: 0,
                players_acted: 0,
                players_to_act: count_must_act(ps, ps.len() as int) as u8,
                current_turn: next_seat(ps, t.dealer_seat as int, 1) as u8,
                awaiting_callback: true,
                ..t
            })
            &&& r->Ok_0.table_id == t.table_id
            &&& r->Ok_0.new_phase == phase_rank(final(table).phase)
        }),
{
    if !is_betting_complete(table) {
        return Err(PokerError::BettingNotComplete);
    }
    if table.awaiting_callback {
        return Err(PokerError::InvalidPhase);
    }
    let new_phase = match table.phase {
        GamePhase::PreFlop => GamePhase::Flop,
        GamePhase::Flop => GamePhase::Turn,
        GamePhase::Turn => GamePhase::River,
        GamePhase::River => GamePhase::Showdown,
        _ => return Err(PokerError::InvalidPhase),
    };
    reset_betting_state(table);
    table.phase = new_phase;
    table.awaiting_callback = true;
    Ok(StreetAdvanced { table_id: table.table_id, new_phase: phase_to_u8(&new_phase) })
}

/// Why the showdown cannot be triggered; `None` when it can.
pub open spec fn showdown_error(t: Table) -> Option<PokerError> {
    if t.phase != GamePhase::River || t.awaiting_callback {
        Some(PokerError::InvalidPhase)
    } else if !round_closed(t) {
        Some(PokerError::BettingNotComplete)
    } else {
        None
    }
}

/// Moves from the river to the showdown once its betting round is closed and
/// requests the showdown evaluation; the table then awaits its callback.
pub fn trigger_showdown(table: &mut Table) -> (r: Result<ShowdownTriggered, PokerError>)
    requires
        old(table).wf(),
    ensures
        final(table).wf(),
        r is Err <==> showdown_error(*old(table)) is Some,
        r is Err ==> r->Err_0 == showdown_error(*old(table))->Some_0 && *final(table) == *old(table),
        r is Ok ==> *final(table) == (Table {
            phase: GamePhase::Showdown,
            awaiting_callback: true,
            ..*old(table)
        }) && r->Ok_0.table_id == old(table).table_id && r->Ok_0.hand_number
            == old(table).hand_number,
{
    if !matches!(table.phase, GamePhase::River) || table.awaiting_callback {
        return Err(PokerError::InvalidPhase);
    }
    if !is_betting_complete(table) {
        return Err(PokerError::BettingNotComplete);
    }
    table.phase = GamePhase::Showdown;
    table.awaiting_callback = true;
    Ok(ShowdownTriggered { table_id: table.table_id, hand_number: table.hand_number })
}

} // verus!
