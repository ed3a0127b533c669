//! What the confidential-computation service computes, on plain values: the
//! ordered deck it shuffles, hole-card dealing from a deck cursor, the hand
//! score it reveals, and a call applied to a seat's encrypted state. The
//! encryption and the shuffle itself belong to the service.
use vstd::prelude::*;
use crate::state::{DECK_SIZE, MAX_PLAYERS};

verus! {

/// Revealed evaluation of one seat's hand.
#[derive(Clone, Copy, PartialEq, Eq, Structural, Debug)]
pub struct HandResult {
    pub player_id: u8,
    pub hand_rank: u16,
    pub hand_category: u8,
    pub kicker_value: u16,
    pub is_winner: u8,
}

/// A seat's betting state as the service holds it.
#[derive(Clone, Copy, PartialEq, Eq, Structural, Debug)]
pub struct PlayerState {
    pub player_id: u8,
    pub chip_count: u64,
    pub current_bet: u64,
    pub total_contributed: u64,
    pub is_active: u8,
    pub is_all_in: u8,
    pub has_acted: u8,
    pub seat_index: u8,
}

/// The pot as the service holds it.
#[derive(Clone, Copy, PartialEq, Eq, Structural, Debug)]
pub struct PotState {
    pub main_pot: u64,
    pub side_pot_count: u8,
    pub current_bet: u64,
    pub min_raise: u64,
    pub last_aggressor: u8,
}

/// The deck before the shuffle: every card once, in order, with nothing dealt
/// and nothing burned.
pub fn create_encrypted_deck() -> (r: (Vec<u8>, u8, u8))
    ensures
        r.0@ == Seq::new(DECK_SIZE as nat, |i: int| i as u8),
        r.1 == 0,
        r.2 == 0,
{
    let mut cards: Vec<u8> = Vec::new();
    let mut i: u8 = 0;
    while i < DECK_SIZE
        invariant
            0 <= i <= DECK_SIZE,
            cards@ == Seq::new(i as nat, |j: int| j as u8),
        decreases DECK_SIZE - i,
    {
        cards.push(i);
        i = i + 1;
        assert(cards@ =~= Seq::new(i as nat, |j: int| j as u8));
    }
    (cards, 0, 0)
}

/// The two cards at the deck cursor, and the cursor moved past them.
pub fn deal_hole_cards(deck: &Vec<u8>, deck_next_index: u8) -> (r: ((u8, u8), u8))
    requires
        deck_next_index as int + 2 <= deck@.len(),
        deck_next_index < 254,
    ensures
        r.0 == (deck@[deck_next_index as int], deck@[deck_next_index as int + 1]),
        r.1 == deck_next_index + 2,
{
    let i = deck_next_index as usize;
    ((deck[i], deck[i + 1]), deck_next_index + 2)
}

/// Score of a two-card hand: ten times the sum of the card codes; its
/// category is the hundreds of the score, its kicker the first card.
pub open spec fn hand_rank(c1: u8, c2: u8) -> int {
    (c1 + c2) * 10
}

pub fn evaluate_hand(c1: u8, c2: u8, player_id: u8) -> (r: HandResult)
    ensures
        r.player_id == player_id,
        r.hand_rank == hand_rank(c1, c2),
        r.hand_category == hand_rank(c1, c2) / 100,
        r.kicker_value == c1,
        r.is_winner == 0,
{
    let rank: u16 = (c1 as u16 + c2 as u16) * 10;
    HandResult {
        player_id,
        hand_rank: rank,
        hand_category: (rank / 100) as u8,
        kicker_value: c1 as u16,
        is_winner: 0,
    }
}

/// What a call moves: the gap between the pot's bet and the seat's bet.
pub open spec fn call_gap(player_current_bet: u64, pot_current_bet: u64) -> int {
    if pot_current_bet > player_current_bet {
        pot_current_bet - player_current_bet
    } else {
        0
    }
}

/// What a call moves: the gap to the pot's bet, or the whole stack when the
/// stack is short.
pub open spec fn call_moved(chips: u64, player_current_bet: u64, pot_current_bet: u64) -> int {
    let gap = call_gap(player_current_bet, pot_current_bet);
    if gap < chips {
        gap
    } else {
        chips as int
    }
}

/// Applies an action code to a seat's stack, bet and the main pot: a call
/// (code 2) moves the gap to the pot's bet, clamped to the stack; any other
/// code changes nothing.
/// Also returns the next seat round a full table.
pub fn process_action(
    action_type: u8,
    player_chip_count: u64,
    player_current_bet: u64,
    pot_current_bet: u64,
    pot_main_pot: u64,
    player_seat_index: u8,
) -> (r: (u64, u64, u64, u8))
    requires
        action_type == 2 ==> pot_main_pot + call_moved(
            player_chip_count,
            player_current_bet,
            pot_current_bet,
        ) <= u64::MAX,
        player_seat_index < 255,
    ensures
        ({
            let d = if action_type == 2 {
                call_moved(player_chip_count, player_current_bet, pot_current_bet)
            } else {
                0
            };
            &&& r.0 == player_chip_count - d
            &&& r.1 == player_current_bet + d
            &&& r.2 == pot_main_pot + d
        }),
        r.3 == (player_seat_index + 1) % (MAX_PLAYERS as int),
{
    let mut new_chips = player_chip_count;
    let mut new_p_bet = player_current_bet;
    let mut new_main_pot = pot_main_pot;
    if action_type == 2 {
        let gap: u64 = if pot_current_bet > player_current_bet {
            pot_current_bet - player_current_bet
        } else {
            0
        };
        let diff: u64 = if gap < player_chip_count {
            gap
        } else {
            player_chip_count
        };
        new_chips = player_chip_count - diff;
        new_p_bet = player_current_bet + diff;
        new_main_pot = pot_main_pot + diff;
    }
    (new_chips, new_p_bet, new_main_pot, (player_seat_index + 1) % (MAX_PLAYERS as u8))
}

} // verus!
