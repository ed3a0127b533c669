use encrypted_poker::betting::submit_action;
use encrypted_poker::dealing::{on_cards_dealt, on_community_cards, on_deck_ready};
use encrypted_poker::ledger::{compute_side_pots, table_well_formed};
use encrypted_poker::phase::{
    create_table, deal_community_cards, join_table, phase_to_u8, start_game, trigger_showdown,
    TokenHolding,
};
use encrypted_poker::settlement::{on_showdown_result, verify_bluff_proof};
use encrypted_poker::social::{fixed_message, send_message, submit_reaction};
use encrypted_poker::state::{EncryptedHand, GamePhase, PokerError, Table, UNREVEALED};

const MXE: [u8; 32] = [9u8; 32];

fn key(b: u8) -> [u8; 32] {
    [b; 32]
}

fn seated(n: u8) -> Table {
    let (mut t, _) = create_table(1, [0u8; 32], key(100), 10, 20, 2, 6, None, 0, 0).unwrap();
    for i in 0..n {
        join_table(&mut t, i, key(i + 1), None, 0).unwrap();
    }
    t
}

fn started(n: u8) -> Table {
    let mut t = seated(n);
    start_game(&mut t, MXE, 0).unwrap();
    on_deck_ready(&mut t, &MXE, 7, key(50)).unwrap();
    t
}

fn act(t: &mut Table, seat: u8, code: u8, raise: u64) -> Result<u8, PokerError> {
    submit_action(t, seat, &key(seat + 1), code, raise, 1).map(|(e, _)| e.next_player)
}

fn pot_matches(t: &Table) -> bool {
    t.pot == t.players.iter().map(|p| p.total_contributed).sum::<u64>()
}

fn checks_around(t: &mut Table) {
    let first = t.current_turn;
    for k in 0..3u8 {
        let s = (first + k) % 3;
        act(t, s, 1, 0).unwrap();
    }
}

#[test]
fn end_to_end_three_seats() {
    let mut t = seated(3);
    assert_eq!(t.players.len(), 3);
    assert!(t.players.iter().all(|p| p.chip_count == 2000));
    start_game(&mut t, MXE, 0).unwrap();
    assert_eq!(t.current_bet, 20);
    assert_eq!(t.pot, 30);
    assert_eq!(t.phase, GamePhase::PreFlop);
    on_deck_ready(&mut t, &MXE, 7, key(50)).unwrap();
    assert_eq!(t.current_turn, 0);
    assert_eq!(act(&mut t, 0, 2, 0), Ok(1));
    assert_eq!(act(&mut t, 1, 2, 0), Ok(2));
    assert_eq!(act(&mut t, 2, 1, 0), Ok(0));
    assert_eq!(t.pot, 60);
    assert!(pot_matches(&t));

    deal_community_cards(&mut t).unwrap();
    assert_eq!(t.phase, GamePhase::Flop);
    on_community_cards(&mut t, &MXE, &vec![0, 1, 2], &vec![10, 11, 12]).unwrap();
    checks_around(&mut t);
    deal_community_cards(&mut t).unwrap();
    assert_eq!(t.phase, GamePhase::Turn);
    on_community_cards(&mut t, &MXE, &vec![3], &vec![13]).unwrap();
    checks_around(&mut t);
    deal_community_cards(&mut t).unwrap();
    assert_eq!(t.phase, GamePhase::River);
    on_community_cards(&mut t, &MXE, &vec![4], &vec![14]).unwrap();
    assert_eq!(t.community_cards, vec![10, 11, 12, 13, 14]);
    checks_around(&mut t);
    trigger_showdown(&mut t).unwrap();
    assert_eq!(t.phase, GamePhase::Showdown);

    let pot = t.pot;
    let result =
        on_showdown_result(&mut t, &MXE, &vec![0], &vec![pot], 3, true, key(60), 5).unwrap();
    assert_eq!(t.phase, GamePhase::Complete);
    assert_eq!(t.players[0].chip_count, 2000 - 20 + pot);
    assert_eq!(t.players[1].chip_count, 1980);
    assert_eq!(t.players[2].chip_count, 1980);
    assert_eq!(result.winners, vec![key(1)]);
    assert_eq!(result.participants, vec![key(1), key(2), key(3)]);
    assert_eq!(result.community_cards, vec![10, 11, 12, 13, 14]);
}

#[test]
fn side_pots_by_contribution_level() {
    let pots = compute_side_pots(&vec![100, 100, 50, 200], &vec![true, true, true, true]);
    assert_eq!(pots.len(), 3);
    assert_eq!((pots[0].level, pots[0].amount), (50, 200));
    assert_eq!(pots[0].eligible, vec![true, true, true, true]);
    assert_eq!((pots[1].level, pots[1].amount), (100, 150));
    assert_eq!(pots[1].eligible, vec![true, true, false, true]);
    assert_eq!((pots[2].level, pots[2].amount), (200, 100));
    assert_eq!(pots[2].eligible, vec![false, false, false, true]);
    assert_eq!(pots.iter().map(|p| p.amount).sum::<u64>(), 450);
}

#[test]
fn side_pots_skip_folded_and_empty() {
    let pots = compute_side_pots(&vec![0, 40, 40], &vec![false, false, true]);
    assert_eq!(pots.len(), 1);
    assert_eq!((pots[0].level, pots[0].amount), (40, 80));
    assert_eq!(pots[0].eligible, vec![false, false, true]);
    assert!(compute_side_pots(&vec![], &vec![]).is_empty());
}

#[test]
fn check_against_open_bet_is_refused() {
    let mut t = started(3);
    let before = t.clone();
    assert_eq!(act(&mut t, 0, 1, 0), Err(PokerError::MustCallOrFold));
    assert_eq!(t.pot, before.pot);
    assert_eq!(t.current_turn, before.current_turn);
    assert_eq!(t.players_acted, before.players_acted);
    assert_eq!(t.players[0].chip_count, before.players[0].chip_count);
    assert!(!t.players[0].has_acted);
}

#[test]
fn raise_below_big_blind_is_refused() {
    let mut t = started(3);
    assert_eq!(act(&mut t, 0, 3, 5), Err(PokerError::RaiseTooSmall));
    assert_eq!(t.pot, 30);
    assert_eq!(t.current_bet, 20);
    assert_eq!(t.players[0].chip_count, 2000);
    assert_eq!(act(&mut t, 0, 3, 40), Ok(1));
    assert_eq!(t.current_bet, 60);
    assert_eq!(t.players[0].chip_count, 1940);
    assert_eq!(t.players_acted, 1);
    assert!(pot_matches(&t));
}

#[test]
fn raise_beyond_stack_is_refused() {
    let mut t = started(3);
    assert_eq!(act(&mut t, 0, 3, 1990), Err(PokerError::InsufficientChips));
    assert_eq!(act(&mut t, 0, 3, u64::MAX), Err(PokerError::InsufficientChips));
    assert_eq!(t.pot, 30);
}

#[test]
fn flop_is_not_reachable_from_waiting() {
    let mut t = seated(3);
    assert_eq!(deal_community_cards(&mut t).err(), Some(PokerError::InvalidPhase));
    assert_eq!(t.phase, GamePhase::Waiting);
    let mut t = started(3);
    assert_eq!(deal_community_cards(&mut t).err(), Some(PokerError::BettingNotComplete));
    assert_eq!(t.phase, GamePhase::PreFlop);
    assert_eq!(phase_to_u8(&GamePhase::Flop), 2);
    assert_eq!(trigger_showdown(&mut t).err(), Some(PokerError::InvalidPhase));
}

fn at_flop() -> Table {
    let mut t = started(3);
    act(&mut t, 0, 2, 0).unwrap();
    act(&mut t, 1, 2, 0).unwrap();
    act(&mut t, 2, 1, 0).unwrap();
    deal_community_cards(&mut t).unwrap();
    t
}

#[test]
fn reveal_into_filled_slot_is_refused() {
    let mut t = at_flop();
    on_community_cards(&mut t, &MXE, &vec![0, 1, 2], &vec![10, 11, 12]).unwrap();
    let again = on_community_cards(&mut t, &MXE, &vec![0, 1, 2], &vec![20, 21, 22]);
    assert!(again.is_err());
    assert_eq!(t.community_cards, vec![10, 11, 12, UNREVEALED, UNREVEALED]);
}

#[test]
fn reveal_errors() {
    let mut t = at_flop();
    assert_eq!(
        on_community_cards(&mut t, &key(8), &vec![0, 1, 2], &vec![1, 2, 3]).err(),
        Some(PokerError::UnauthorizedCallback)
    );
    assert_eq!(
        on_community_cards(&mut t, &MXE, &vec![0, 1, 5], &vec![1, 2, 3]).err(),
        Some(PokerError::InvalidCard)
    );
    assert_eq!(
        on_community_cards(&mut t, &MXE, &vec![0, 1, 2], &vec![1, 2, 52]).err(),
        Some(PokerError::InvalidCard)
    );
    assert_eq!(
        on_community_cards(&mut t, &MXE, &vec![0, 1], &vec![1, 2]).err(),
        Some(PokerError::InvalidCard)
    );
    assert_eq!(t.community_cards, vec![UNREVEALED; 5]);
    assert!(t.awaiting_callback);
}

#[test]
fn pot_tracks_contributions() {
    let mut t = started(3);
    act(&mut t, 0, 3, 100).unwrap();
    act(&mut t, 1, 0, 0).unwrap();
    act(&mut t, 2, 4, 0).unwrap();
    assert!(pot_matches(&t));
    assert_eq!(t.pot, 120 + 10 + 2000);
    assert!(t.players[2].is_all_in);
    assert_eq!(t.current_bet, 2000);
    assert_eq!(t.current_turn, 0);
    assert!(!t.players[1].is_active);
}

#[test]
fn showdown_result_checks() {
    let mut t = at_flop();
    on_community_cards(&mut t, &MXE, &vec![0, 1, 2], &vec![1, 2, 3]).unwrap();
    assert_eq!(
        on_showdown_result(&mut t, &MXE, &vec![0], &vec![60], 1, true, key(1), 2).err(),
        Some(PokerError::InvalidPhase)
    );
    let mut t = started(2);
    act(&mut t, 1, 0, 0).unwrap();
    assert!(!t.players[1].is_active);
    t.phase = GamePhase::Showdown;
    t.awaiting_callback = true;
    let pot = t.pot;
    assert_eq!(
        on_showdown_result(&mut t, &MXE, &vec![0], &vec![pot + 1], 1, true, key(1), 2).err(),
        Some(PokerError::InvalidProof)
    );
    assert_eq!(
        on_showdown_result(&mut t, &MXE, &vec![1], &vec![pot], 1, true, key(1), 2).err(),
        Some(PokerError::InvalidProof)
    );
    assert_eq!(
        on_showdown_result(&mut t, &key(3), &vec![0], &vec![pot], 1, true, key(1), 2).err(),
        Some(PokerError::UnauthorizedCallback)
    );
    assert_eq!(t.phase, GamePhase::Showdown);
    on_showdown_result(&mut t, &MXE, &vec![0], &vec![pot], 1, true, key(1), 2).unwrap();
    assert_eq!(t.players[0].chip_count, 2000 - 20 + pot);
    assert_eq!(
        on_showdown_result(&mut t, &MXE, &vec![0], &vec![pot], 1, true, key(1), 2).err(),
        Some(PokerError::InvalidPhase)
    );
    start_game(&mut t, MXE, 9).unwrap();
    assert_eq!(t.hand_number, 2);
    assert_eq!(t.pot, 30);
    assert_eq!(t.community_cards, vec![UNREVEALED; 5]);
}

#[test]
fn table_setup_errors() {
    let e = |sb, bb, mn, mx| create_table(1, [0; 32], key(1), sb, bb, mn, mx, None, 0, 0).err();
    assert_eq!(e(0, 0, 2, 6), Some(PokerError::InvalidBlind));
    assert_eq!(e(10, 25, 2, 6), Some(PokerError::InvalidBlind));
    assert_eq!(e(u64::MAX, 0, 2, 6), Some(PokerError::InvalidBlind));
    assert_eq!(e(10, 20, 1, 6), Some(PokerError::InvalidPlayerCount));
    assert_eq!(e(10, 20, 4, 3), Some(PokerError::InvalidPlayerCount));
    assert_eq!(e(10, 20, 2, 7), Some(PokerError::InvalidPlayerCount));

    let mut t = seated(2);
    assert_eq!(join_table(&mut t, 1, key(7), None, 0).err(), Some(PokerError::InvalidSeat));
    assert_eq!(join_table(&mut t, 6, key(7), None, 0).err(), Some(PokerError::InvalidSeat));
    let mut one = seated(1);
    assert_eq!(start_game(&mut one, MXE, 0).err(), Some(PokerError::NotEnoughPlayers));
    start_game(&mut t, MXE, 0).unwrap();
    assert_eq!(start_game(&mut t, MXE, 0).err(), Some(PokerError::GameAlreadyStarted));
    assert_eq!(join_table(&mut t, 3, key(7), None, 0).err(), Some(PokerError::GameAlreadyStarted));

    let mut full = seated(6);
    assert_eq!(full.current_players, 6);
    assert_eq!(join_table(&mut full, 5, key(7), None, 0).err(), Some(PokerError::TableFull));
}

#[test]
fn token_gate() {
    let (mut t, _) = create_table(2, [0; 32], key(1), 5, 10, 2, 4, Some(key(40)), 100, 0).unwrap();
    assert_eq!(join_table(&mut t, 0, key(1), None, 0).err(), Some(PokerError::TokenGateRequired));
    let wrong = TokenHolding { mint: key(41), amount: 500 };
    assert_eq!(join_table(&mut t, 0, key(1), Some(wrong), 0).err(), Some(PokerError::InvalidTokenMint));
    let short = TokenHolding { mint: key(40), amount: 99 };
    assert_eq!(join_table(&mut t, 0, key(1), Some(short), 0).err(), Some(PokerError::InsufficientTokens));
    let ok = TokenHolding { mint: key(40), amount: 100 };
    assert!(join_table(&mut t, 0, key(1), Some(ok), 0).is_ok());
}

#[test]
fn turn_and_time_checks() {
    let mut t = seated(3);
    assert_eq!(act(&mut t, 0, 2, 0), Err(PokerError::InvalidPhase));
    start_game(&mut t, MXE, 0).unwrap();
    assert_eq!(act(&mut t, 0, 2, 0), Err(PokerError::InvalidPhase));
    on_deck_ready(&mut t, &MXE, 7, key(50)).unwrap();
    assert_eq!(act(&mut t, 1, 2, 0), Err(PokerError::NotYourTurn));
    assert_eq!(submit_action(&mut t, 0, &key(2), 2, 0, 1).err(), Some(PokerError::NotYourTurn));
    assert_eq!(act(&mut t, 0, 9, 0), Err(PokerError::InvalidAction));
    assert_eq!(act(&mut t, 7, 2, 0), Err(PokerError::InvalidSeat));
    assert_eq!(submit_action(&mut t, 0, &key(1), 2, 0, 61).err(), Some(PokerError::TimeExpired));
    let (_, record) = submit_action(&mut t, 0, &key(1), 2, 0, 50).unwrap();
    assert_eq!(record.player, key(1));
    assert_eq!(record.hand_number, 1);
    assert_eq!(record.action_type, 2);
    assert_eq!(record.timestamp, 50);
    assert_eq!(t.players[0].time_bank_remaining, 10);
    assert_eq!(t.last_action_ts, 50);
}

#[test]
fn dealing_callbacks() {
    let mut t = seated(2);
    start_game(&mut t, MXE, 0).unwrap();
    assert_eq!(on_deck_ready(&mut t, &key(3), 1, key(4)).err(), Some(PokerError::UnauthorizedCallback));
    assert_eq!(
        on_cards_dealt(&mut t, &MXE, 0, [1; 64], [2; 64], key(5), 2).err(),
        Some(PokerError::InvalidPhase)
    );
    on_deck_ready(&mut t, &MXE, 1, key(4)).unwrap();
    assert_eq!(t.encrypted_deck_hash, key(4));
    assert_eq!(on_deck_ready(&mut t, &MXE, 1, key(4)).err(), Some(PokerError::InvalidPhase));
    let (hand, _) = on_cards_dealt(&mut t, &MXE, 0, [1; 64], [2; 64], key(5), 2).unwrap();
    assert_eq!(hand.player, key(1));
    assert_eq!(t.players[0].encrypted_hand_hash, key(5));
    assert_eq!(t.deck_cursor, 2);
    assert_eq!(
        on_cards_dealt(&mut t, &MXE, 0, [3; 64], [4; 64], key(7), 4).err(),
        Some(PokerError::InvalidCard)
    );
    assert_eq!(t.players[0].encrypted_hand_hash, key(5));
    assert_eq!(t.deck_cursor, 2);
    assert_eq!(
        on_cards_dealt(&mut t, &MXE, 1, [1; 64], [2; 64], key(6), 2).err(),
        Some(PokerError::InvalidCard)
    );
    assert_eq!(
        on_cards_dealt(&mut t, &MXE, 1, [1; 64], [2; 64], key(6), 53).err(),
        Some(PokerError::InvalidCard)
    );
    assert_eq!(
        on_cards_dealt(&mut t, &MXE, 2, [1; 64], [2; 64], key(6), 4).err(),
        Some(PokerError::InvalidSeat)
    );
}

#[test]
fn bluff_proof() {
    let hand = EncryptedHand {
        player: key(1),
        table_id: 1,
        hand_number: 3,
        encrypted_card1: [0; 64],
        encrypted_card2: [0; 64],
        arcium_commitment: key(2),
    };
    assert_eq!(verify_bluff_proof(&hand, 4, 1, 2, true).err(), Some(PokerError::InvalidGame));
    assert_eq!(verify_bluff_proof(&hand, 3, 1, 2, false).err(), Some(PokerError::InvalidProof));
    let ok = verify_bluff_proof(&hand, 3, 1, 2, true).unwrap();
    assert_eq!((ok.card1, ok.card2, ok.player), (1, 2, key(1)));
}

#[test]
fn reactions_and_messages() {
    let mut t = seated(2);
    assert!(submit_reaction(&mut t, 5, 1, 3).is_none());
    submit_reaction(&mut t, 1, 4, 3).unwrap();
    assert_eq!(t.players[1].last_reaction, 4);
    let long = "x".repeat(70);
    send_message(&mut t, 0, long, 8).unwrap();
    assert_eq!(t.players[0].last_message, [b'x'; 64]);
    let short = fixed_message(b"hi");
    assert_eq!(&short[..3], &[b'h', b'i', 0]);
}

#[test]
fn payout_capped_by_side_pot() {
    let mut t = started(2);
    act(&mut t, 1, 0, 0).unwrap();
    t.phase = GamePhase::Showdown;
    t.awaiting_callback = true;
    on_showdown_result(&mut t, &MXE, &vec![0], &vec![30], 1, true, key(1), 2).unwrap();
    assert_eq!((t.players[0].chip_count, t.players[1].chip_count), (2010, 1990));

    start_game(&mut t, MXE, 3).unwrap();
    on_deck_ready(&mut t, &MXE, 8, key(51)).unwrap();
    assert_eq!(t.current_turn, 1);
    assert_eq!(act(&mut t, 1, 4, 0), Ok(0));
    assert_eq!(act(&mut t, 0, 4, 0), Ok(0));
    assert_eq!(t.players[0].total_contributed, 2010);
    assert_eq!(t.players[1].total_contributed, 1990);
    assert_eq!(t.pot, 4000);
    t.phase = GamePhase::Showdown;
    t.awaiting_callback = true;
    assert_eq!(
        on_showdown_result(&mut t, &MXE, &vec![1], &vec![4000], 1, true, key(1), 4).err(),
        Some(PokerError::InvalidProof)
    );
    on_showdown_result(&mut t, &MXE, &vec![1, 0], &vec![3980, 20], 1, true, key(1), 4).unwrap();
    assert_eq!(t.players[1].chip_count, 3980);
    assert_eq!(t.players[0].chip_count, 20);
}

fn showdown_with(contributions: [u64; 4], all_in: usize) -> Table {
    let mut t = started(4);
    for (i, c) in contributions.iter().enumerate() {
        t.players[i].chip_count = 2000 - c;
        t.players[i].total_contributed = *c;
        t.players[i].current_bet = *c;
    }
    t.players[all_in].is_all_in = true;
    t.current_bet = 200;
    t.pot = contributions.iter().sum();
    t.phase = GamePhase::Showdown;
    t.awaiting_callback = true;
    t
}

#[test]
fn seat_listed_twice_is_capped_in_total() {
    let mut t = showdown_with([100, 100, 50, 200], 2);
    assert_eq!(t.pot, 450);
    assert_eq!(
        on_showdown_result(&mut t, &MXE, &vec![2, 2, 3], &vec![200, 150, 100], 1, true, key(1), 3).err(),
        Some(PokerError::InvalidProof)
    );
    assert_eq!(t.players[2].chip_count, 1950);
    on_showdown_result(&mut t, &MXE, &vec![2, 0, 3], &vec![200, 150, 100], 1, true, key(1), 3).unwrap();
    assert_eq!(t.players[2].chip_count, 2150);
    assert_eq!(t.players[0].chip_count, 2050);
    assert_eq!(t.players[3].chip_count, 1900);
}

#[test]
fn uncalled_level_goes_back_to_its_seat() {
    let mut t = showdown_with([100, 100, 50, 200], 2);
    assert_eq!(
        on_showdown_result(&mut t, &MXE, &vec![0], &vec![350], 1, true, key(1), 3).err(),
        Some(PokerError::InvalidProof)
    );
    assert_eq!(t.phase, GamePhase::Showdown);
    on_showdown_result(&mut t, &MXE, &vec![0, 3], &vec![350, 100], 1, true, key(1), 3).unwrap();
    assert_eq!(t.players[0].chip_count, 2250);
    assert_eq!(t.players[3].chip_count, 1900);
}

#[test]
fn failed_proof_halts_the_hand() {
    let mut t = showdown_with([100, 100, 50, 200], 2);
    assert_eq!(
        on_showdown_result(&mut t, &MXE, &vec![0, 3], &vec![350, 100], 1, false, key(1), 3).err(),
        Some(PokerError::InvalidProof)
    );
    assert!(t.halted);
    assert_eq!(
        on_showdown_result(&mut t, &MXE, &vec![0, 3], &vec![350, 100], 1, true, key(1), 3).err(),
        Some(PokerError::InvalidGame)
    );
    assert_eq!(t.phase, GamePhase::Showdown);
    assert_eq!(t.players[0].chip_count, 1900);
}

#[test]
fn well_formedness_check() {
    let mut t = started(3);
    assert!(table_well_formed(&t));
    act(&mut t, 0, 3, 100).unwrap();
    assert!(table_well_formed(&t));
    t.pot += 1;
    assert!(!table_well_formed(&t));
    t.pot -= 1;
    t.players[1].player_id = 2;
    assert!(!table_well_formed(&t));
    let mut w = seated(2);
    assert!(table_well_formed(&w));
    w.players[0].chip_count = 2001;
    assert!(!table_well_formed(&w));
}
