use encrypted_poker::circuits::{create_encrypted_deck, deal_hole_cards, evaluate_hand, process_action};

#[test]
fn ordered_deck() {
    let (deck, next, burned) = create_encrypted_deck();
    assert_eq!(deck.len(), 52);
    assert_eq!(deck[0], 0);
    assert_eq!(deck[51], 51);
    assert_eq!((next, burned), (0, 0));
}

#[test]
fn hole_cards_from_cursor() {
    let deck: Vec<u8> = (0..52).rev().collect();
    assert_eq!(deal_hole_cards(&deck, 0), ((51, 50), 2));
    assert_eq!(deal_hole_cards(&deck, 4), ((47, 46), 6));
}

#[test]
fn hand_score() {
    let r = evaluate_hand(12, 25, 3);
    assert_eq!(r.player_id, 3);
    assert_eq!(r.hand_rank, 370);
    assert_eq!(r.hand_category, 3);
    assert_eq!(r.kicker_value, 12);
    assert_eq!(r.is_winner, 0);
}

#[test]
fn call_moves_gap() {
    assert_eq!(process_action(2, 1000, 10, 50, 200, 2), (960, 50, 240, 3));
    assert_eq!(process_action(1, 1000, 10, 50, 200, 5), (1000, 10, 200, 0));
    assert_eq!(process_action(2, 1000, 60, 50, 200, 0), (1000, 60, 200, 1));
    assert_eq!(process_action(2, 15, 10, 50, 200, 4), (0, 25, 215, 5));
}
