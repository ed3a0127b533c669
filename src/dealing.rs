//! The confidential-dealing coordinator: the callbacks of the external
//! confidential-computation service, checked against the table's state
//! (who may call, which request is outstanding, which deck positions and
//! board slots are still free) before anything is recorded.
use vstd::prelude::*;
use crate::betting::same_key;
use crate::state::{
    contributions, stacks, CardsDealt, CommunityCardsDealt, DeckReady, EncryptedHand, GamePhase,
    Player, PokerError, Pubkey, Table, BOARD_SLOTS, DECK_SIZE, UNREVEALED,
};

verus! {

/// A callback is accepted only from the service the hand was started with.
pub open spec fn authorized(t: Table, mxe: Pubkey) -> bool {
    mxe@ == t.arcium_mxe_account@
}

fn verify_arcium_callback(table: &Table, mxe: &Pubkey) -> (r: Result<(), PokerError>)
    ensures
        r is Ok <==> authorized(*table, *mxe),
        r is Err ==> r->Err_0 == PokerError::UnauthorizedCallback,
{
    if same_key(mxe, &table.arcium_mxe_account) {
        Ok(())
    } else {
        Err(PokerError::UnauthorizedCallback)
    }
}

/// Why a shuffled-deck callback is refused; `None` when it is accepted.
pub open spec fn deck_ready_error(t: Table, mxe: Pubkey) -> Option<PokerError> {
    if !authorized(t, mxe) {
        Some(PokerError::UnauthorizedCallback)
    } else if t.phase != GamePhase::PreFlop || !t.awaiting_callback {
        Some(PokerError::InvalidPhase)
    } else {
        None
    }
}

/// Records the commitment to the freshly shuffled deck; betting may begin.
pub fn on_deck_ready(
    table: &mut Table,
    mxe: &Pubkey,
    computation_id: u64,
    encrypted_deck_hash: Pubkey,
) -> (r: Result<DeckReady, PokerError>)
    requires
        old(table).wf(),
    ensures
        final(table).wf(),
        r is Err <==> deck_ready_error(*old(table), *mxe) is Some,
        r is Err ==> r->Err_0 == deck_ready_error(*old(table), *mxe)->Some_0 && *final(table)
            == *old(table),
        r is Ok ==> *final(table) == (Table {
            encrypted_deck_hash,
            arcium_computation_id: computation_id,
            awaiting_callback: false,
            ..*old(table)
        }) && r->Ok_0.table_id == old(table).table_id && r->Ok_0.hand_number
            == old(table).hand_number,
{
    verify_arcium_callback(table, mxe)?;
    if !matches!(table.phase, GamePhase::PreFlop) || !table.awaiting_callback {
        return Err(PokerError::InvalidPhase);
    }
    table.encrypted_deck_hash = encrypted_deck_hash;
    table.arcium_computation_id = computation_id;
    table.awaiting_callback = false;
    Ok(DeckReady { table_id: table.table_id, hand_number: table.hand_number })
}

/// Why a hole-card callback is refused; `None` when it is accepted. A seat is
/// dealt once per hand, and the deck cursor reported must move forward and
/// stay within the deck.
pub open spec fn cards_dealt_error(t: Table, mxe: Pubkey, player_id: u8, cursor: u8) -> Option<
    PokerError,
> {
    if !authorized(t, mxe) {
        Some(PokerError::UnauthorizedCallback)
    } else if t.phase != GamePhase::PreFlop || t.awaiting_callback {
        Some(PokerError::InvalidPhase)
    } else if player_id >= t.players@.len() {
        Some(PokerError::InvalidSeat)
    } else if t.players@[player_id as int].hole_cards_dealt || cursor <= t.deck_cursor || cursor
        > DECK_SIZE {
        Some(PokerError::InvalidCard)
    } else {
        None
    }
}

/// Records the commitment to one seat's hole cards, which only that seat can
/// decrypt, and the deck positions consumed so far. The record is made once
/// per seat and hand; a repeated callback is refused and changes nothing.
pub fn on_cards_dealt(
    table: &mut Table,
    mxe: &Pubkey,
    player_id: u8,
    encrypted_card1: [u8; 64],
    encrypted_card2: [u8; 64],
    arcium_commitment: Pubkey,
    cursor: u8,
) -> (r: Result<(EncryptedHand, CardsDealt), PokerError>)
    requires
        old(table).wf(),
    ensures
        final(table).wf(),
        r is Err <==> cards_dealt_error(*old(table), *mxe, player_id, cursor) is Some,
        r is Err ==> r->Err_0 == cards_dealt_error(*old(table), *mxe, player_id, cursor)->Some_0
            && *final(table) == *old(table),
        r is Ok ==> ({
            let t = *old(table);
            let p = t.players@[player_id as int];
            let hand = r->Ok_0.0;
            &&& final(table).players@ == t.players@.update(
                player_id as int,
                Player { encrypted_hand_hash: arcium_commitment, hole_cards_dealt: true, ..p },
            )
            &&& *final(table) == (Table {
                players: final(table).players,
                deck_cursor: cursor,
                ..t
            })
            &&& hand == (EncryptedHand {
                player: p.wallet,
                table_id: t.table_id,
                hand_number: t.hand_number,
                encrypted_card1,
                encrypted_card2,
                arcium_commitment,
            })
            &&& r->Ok_0.1.table_id == t.table_id
            &&& r->Ok_0.1.player_id == player_id
            &&& r->Ok_0.1.hand_number == t.hand_number
        }),
{
    verify_arcium_callback(table, mxe)?;
    if !matches!(table.phase, GamePhase::PreFlop) || table.awaiting_callback {
        return Err(PokerError::InvalidPhase);
    }
    if player_id as usize >= table.players.len() {
        return Err(PokerError::InvalidSeat);
    }
    if table.players[player_id as usize].hole_cards_dealt || cursor <= table.deck_cursor || cursor
        > DECK_SIZE {
        return Err(PokerError::InvalidCard);
    }
    let ghost t0 = *table;
    let i = player_id as usize;
    let mut p = table.players[i];
    let wallet = p.wallet;
    p.encrypted_hand_hash = arcium_commitment;
    p.hole_cards_dealt = true;
    table.players.set(i, p);
    table.deck_cursor = cursor;
    proof {
        let ps = table.players@;
        assert(stacks(ps) =~= stacks(t0.players@));
        assert(contributions(ps) =~= contributions(t0.players@));
        assert forall|j: int| 0 <= j < ps.len() implies #[trigger] ps[j].player_id == j
            && ps[j].current_bet <= ps[j].total_contributed && ps[j].current_bet
            <= table.current_bet by {
            assert(t0.players@[j].player_id == j);
        }
    }
    let hand = EncryptedHand {
        player: wallet,
        table_id: table.table_id,
        hand_number: table.hand_number,
        encrypted_card1,
        encrypted_card2,
        arcium_commitment,
    };
    Ok((hand, CardsDealt { table_id: table.table_id, player_id, hand_number: table.hand_number }))
}

/// First board slot revealed on entering a street, and how many are revealed.
pub open spec fn board_window(p: GamePhase) -> (int, int) {
    match p {
        GamePhase::Flop => (0, 3),
        GamePhase::Turn => (3, 1),
        GamePhase::River => (4, 1),
        _ => (0, 0),
    }
}

/// The cards revealed for the current street are exactly its slots, in order,
/// each still empty, each a card of the deck.
pub open spec fn reveal_fits(t: Table, indices: Seq<u8>, values: Seq<u8>) -> bool {
    let (first, count) = board_window(t.phase);
    &&& indices.len() == count
    &&& values.len() == count
    &&& forall|k: int|
        #![trigger indices[k]]
        0 <= k < count ==> {
            &&& indices[k] == first + k
            &&& t.community_cards@[first + k] == UNREVEALED
            &&& values[k] < DECK_SIZE
        }
}

/// Why a community-card callback is refused; `None` when it is accepted.
pub open spec fn reveal_error(t: Table, mxe: Pubkey, indices: Seq<u8>, values: Seq<u8>) -> Option<
    PokerError,
> {
    if !authorized(t, mxe) {
        Some(PokerError::UnauthorizedCallback)
    } else if !(t.phase == GamePhase::Flop || t.phase == GamePhase::Turn || t.phase
        == GamePhase::River) || !t.awaiting_callback {
        Some(PokerError::InvalidPhase)
    } else if !reveal_fits(t, indices, values) {
        Some(PokerError::InvalidCard)
    } else {
        None
    }
}

/// The board after the street's cards are written into its slots.
pub open spec fn board_after_reveal(board: Seq<u8>, first: int, values: Seq<u8>) -> Seq<u8> {
    Seq::new(
        board.len(),
        |i: int|
            if first <= i < first + values.len() {
                values[i - first]
            } else {
                board[i]
            },
    )
}

/// Writes the revealed community cards of the current street into their
/// slots; a callback that names any other slot, a filled slot, or a value
/// that is no card is refused and leaves the table as it was.
pub fn on_community_cards(
    table: &mut Table,
    mxe: &Pubkey,
    card_indices: &Vec<u8>,
    card_values: &Vec<u8>,
) -> (r: Result<CommunityCardsDealt, PokerError>)
    requires
        old(table).wf(),
    ensures
        final(table).wf(),
        r is Err <==> reveal_error(*old(table), *mxe, card_indices@, card_values@) is Some,
        r is Err ==> r->Err_0 == reveal_error(*old(table), *mxe, card_indices@, card_values@)->Some_0
            && *final(table) == *old(table),
        r is Ok ==> ({
            let t = *old(table);
            &&& final(table).community_cards@ == board_after_reveal(
                t.community_cards@,
                board_window(t.phase).0,
                card_values@,
            )
            &&& *final(table) == (Table {
                community_cards: final(table).community_cards,
                awaiting_callback: false,
                ..t
            })
            &&& r->Ok_0.table_id == t.table_id
            &&& r->Ok_0.cards@ == final(table).community_cards@
        }),
{
    verify_arcium_callback(table, mxe)?;
    let (first, count): (usize, usize) = match table.phase {
        GamePhase::Flop => (0, 3),
        GamePhase::Turn => (3, 1),
        GamePhase::River => (4, 1),
        _ => return Err(PokerError::InvalidPhase),
    };
    if !table.awaiting_callback {
        return Err(PokerError::InvalidPhase);
    }
    if card_indices.len() != count || card_values.len() != count {
        return Err(PokerError::InvalidCard);
    }
    let mut k: usize = 0;
    while k < count
        invariant
            0 <= k <= count,
            *table == *old(table),
            old(table).wf(),
            authorized(*old(table), *mxe),
            old(table).awaiting_callback,
            old(table).phase == GamePhase::Flop || old(table).phase == GamePhase::Turn
                || old(table).phase == GamePhase::River,
            (first as int, count as int) == board_window(table.phase),
            card_indices@.len() == count,
            card_values@.len() == count,
            table.community_cards@.len() == BOARD_SLOTS,
            forall|j: int|
                #![trigger card_indices@[j]]
                0 <= j < k ==> {
                    &&& card_indices@[j] == first + j
                    &&& table.community_cards@[first + j] == UNREVEALED
                    &&& card_values@[j] < DECK_SIZE
                },
        decreases count - k,
    {
        if card_indices[k] as usize != first + k || table.community_cards[first + k] != UNREVEALED
            || card_values[k] >= DECK_SIZE {
            assert(!reveal_fits(*table, card_indices@, card_values@)) by {
                assert(card_indices@[k as int] == card_indices@[k as int]);
            }
            return Err(PokerError::InvalidCard);
        }
        k = k + 1;
    }
    let ghost t0 = *table;
    let mut k: usize = 0;
    while k < count
        invariant
            0 <= k <= count,
            (first as int, count as int) == board_window(t0.phase),
            card_values@.len() == count,
            table.community_cards@.len() == BOARD_SLOTS,
            forall|i: int|
                0 <= i < BOARD_SLOTS ==> #[trigger] table.community_cards@[i] == if first <= i < first + k {
                    card_values@[i - first]
                } else {
                    t0.community_cards@[i]
                },
            *table == (Table { community_cards: table.community_cards, ..t0 }),
            t0 == *old(table),
        decreases count - k,
    {
        table.community_cards.set(first + k, card_values[k]);
        k = k + 1;
    }
    table.awaiting_callback = false;
    assert(table.community_cards@ =~= board_after_reveal(t0.community_cards@, first as int, card_values@));
    Ok(CommunityCardsDealt { table_id: table.table_id, cards: table.community_cards.clone() })
}

} // verus!
