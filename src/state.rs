//! The table aggregate, its seats, events, errors and well-formedness.
use vstd::prelude::*;

verus! {

/// Most seats a table can have.
pub const MAX_PLAYERS: usize = 6;

/// Stack given to a player on joining.
pub const STARTING_CHIPS: u64 = 2000;

/// Think time granted for each action before the time bank is drawn on.
pub const TIME_BANK_SECONDS: i64 = 30;

/// Every chip that can ever be at one table: a full table of starting stacks.
pub const CHIP_SUPPLY: u64 = 12000;

/// Community-card slots on the board.
pub const BOARD_SLOTS: usize = 5;

/// Marker of a community-card slot that has not been revealed yet.
pub const UNREVEALED: u8 = 255;

/// Cards in a deck.
pub const DECK_SIZE: u8 = 52;

/// A 32-byte account address.
pub type Pubkey = [u8; 32];

#[derive(Clone, Copy, PartialEq, Eq, Structural, Debug)]
pub enum GamePhase {
    Waiting,
    PreFlop,
    Flop,
    Turn,
    River,
    Showdown,
    Complete,
}

#[derive(Clone, Copy, PartialEq, Eq, Structural, Debug)]
pub enum PlayerAction {
    Fold,
    Check,
    Call,
    Raise(u64),
    AllIn,
}

#[derive(Clone, Copy, PartialEq, Eq, Structural, Debug)]
pub enum PokerError {
    InvalidBlind,
    InvalidPlayerCount,
    GameAlreadyStarted,
    TableFull,
    InvalidSeat,
    TokenGateRequired,
    InvalidTokenMint,
    InsufficientTokens,
    NotEnoughPlayers,
    PlayerInactive,
    NotYourTurn,
    TimeExpired,
    MustCallOrFold,
    InsufficientChips,
    RaiseTooSmall,
    InvalidAction,
    BettingNotComplete,
    InvalidPhase,
    InvalidCard,
    UnauthorizedCallback,
    InvalidProof,
    InvalidGame,
}

/// One occupied seat.
#[derive(Clone, Copy, Debug)]
pub struct Player {
    pub player_id: u8,
    pub wallet: Pubkey,
    pub seat_index: u8,
    pub chip_count: u64,
    pub current_bet: u64,
    pub total_contributed: u64,
    pub is_active: bool,
    pub is_all_in: bool,
    pub has_acted: bool,
    pub time_bank_remaining: i64,
    pub encrypted_hand_hash: Pubkey,
    /// This hand's hole cards have been dealt to the seat.
    pub hole_cards_dealt: bool,
    pub joined_at: i64,
    pub last_reaction: u8,
    pub last_reaction_ts: i64,
    pub last_message: [u8; 64],
    pub last_message_ts: i64,
}

/// The table and everyone seated at it.
#[derive(Clone, Debug)]
pub struct Table {
    pub table_id: u64,
    pub name: Pubkey,
    pub creator: Pubkey,
    pub small_blind: u64,
    pub big_blind: u64,
    pub min_players: u8,
    pub max_players: u8,
    pub current_players: u8,
    pub phase: GamePhase,
    pub pot: u64,
    pub current_bet: u64,
    pub dealer_seat: u8,
    pub current_turn: u8,
    pub hand_number: u64,
    pub arcium_mxe_account: Pubkey,
    pub arcium_computation_id: u64,
    pub encrypted_deck_hash: Pubkey,
    /// Revealed board cards; `UNREVEALED` marks an empty slot.
    pub community_cards: Vec<u8>,
    /// How many deck positions hole-card deals have consumed this hand.
    pub deck_cursor: u8,
    /// A request to the confidential-computation service is outstanding.
    pub awaiting_callback: bool,
    /// A showdown proof failed verification: the hand stops here until it is
    /// resolved outside the table.
    pub halted: bool,
    pub last_action_ts: i64,
    pub players_acted: u8,
    pub players_to_act: u8,
    pub token_gate_mint: Option<Pubkey>,
    pub token_gate_amount: u64,
    /// Seats in joining order: `players[i].player_id == i`.
    pub players: Vec<Player>,
}

/// Committed hole cards of one seat for one hand; only the commitment is kept.
#[derive(Clone, Copy, Debug)]
pub struct EncryptedHand {
    pub player: Pubkey,
    pub table_id: u64,
    pub hand_number: u64,
    pub encrypted_card1: [u8; 64],
    pub encrypted_card2: [u8; 64],
    pub arcium_commitment: Pubkey,
}

/// Audit record of one betting action; the amount stays confidential.
#[derive(Clone, Copy, Debug)]
pub struct EncryptedAction {
    pub player: Pubkey,
    pub table_id: u64,
    pub hand_number: u64,
    pub action_type: u8,
    pub timestamp: i64,
}

/// Settled outcome of one hand.
#[derive(Clone, Debug)]
pub struct GameResult {
    pub table_id: u64,
    pub hand_number: u64,
    /// Seats of the winners, parallel to `payouts`.
    pub winner_seats: Vec<u8>,
    pub winners: Vec<Pubkey>,
    pub payouts: Vec<u64>,
    pub winning_hand_category: u8,
    pub community_cards: Vec<u8>,
    /// Every seated player, winners and losers.
    pub participants: Vec<Pubkey>,
    pub proof_hash: Pubkey,
    pub timestamp: i64,
}

pub struct TableCreated {
    pub table_id: u64,
    pub creator: Pubkey,
    pub small_blind: u64,
    pub big_blind: u64,
}

pub struct PlayerJoined {
    pub table_id: u64,
    pub player: Pubkey,
    pub seat: u8,
}

pub struct GameStarted {
    pub table_id: u64,
    pub hand_number: u64,
    pub player_count: u8,
}

pub struct DeckReady {
    pub table_id: u64,
    pub hand_number: u64,
}

pub struct CardsDealt {
    pub table_id: u64,
    pub player_id: u8,
    pub hand_number: u64,
}

pub struct ActionSubmitted {
    pub table_id: u64,
    pub player_id: u8,
    pub action_type: u8,
    pub next_player: u8,
}

pub struct StreetAdvanced {
    pub table_id: u64,
    pub new_phase: u8,
}

pub struct CommunityCardsDealt {
    pub table_id: u64,
    pub cards: Vec<u8>,
}

pub struct ShowdownTriggered {
    pub table_id: u64,
    pub hand_number: u64,
}

pub struct GameComplete {
    pub table_id: u64,
    pub hand_number: u64,
    pub winner_count: u8,
    pub proof_hash: Pubkey,
}

pub struct BluffRevealed {
    pub player: Pubkey,
    pub game_id: u64,
    pub card1: u8,
    pub card2: u8,
}

pub struct ReactionSubmitted {
    pub table_id: u64,
    pub player: Pubkey,
    pub reaction_type: u8,
}

pub struct ChatMessageSent {
    pub table_id: u64,
    pub player: Pubkey,
    pub message: String,
}

/// Sum of a sequence of chip amounts.
pub open spec fn sum(s: Seq<u64>) -> int
    decreases s.len(),
{
    if s.len() == 0 {
        0
    } else {
        sum(s.drop_last()) + s.last()
    }
}

pub open spec fn stacks(ps: Seq<Player>) -> Seq<u64> {
    ps.map_values(|p: Player| p.chip_count)
}

pub open spec fn contributions(ps: Seq<Player>) -> Seq<u64> {
    ps.map_values(|p: Player| p.total_contributed)
}

/// A seat that still owes decisions in the current betting round.
pub open spec fn must_act(p: Player) -> bool {
    p.is_active && !p.is_all_in
}

/// Seats that owe decisions among the first `k`.
pub open spec fn count_must_act(ps: Seq<Player>, k: int) -> nat
    decreases k,
{
    if k <= 0 {
        0
    } else {
        count_must_act(ps, k - 1) + if must_act(ps[k - 1]) { 1nat } else { 0nat }
    }
}

/// Position in the fixed order of phases.
pub open spec fn phase_rank(p: GamePhase) -> int {
    match p {
        GamePhase::Waiting => 0,
        GamePhase::PreFlop => 1,
        GamePhase::Flop => 2,
        GamePhase::Turn => 3,
        GamePhase::River => 4,
        GamePhase::Showdown => 5,
        GamePhase::Complete => 6,
    }
}

/// A betting street: PreFlop, Flop, Turn or River.
pub open spec fn is_street(p: GamePhase) -> bool {
    1 <= phase_rank(p) <= 4
}

impl Table {
    pub open spec fn seat_count(&self) -> int {
        self.players@.len() as int
    }

    /// Well-formedness: the table's configuration and the ledger agree.
    pub open spec fn wf(&self) -> bool {
        let ps = self.players@;
        &&& self.small_blind > 0
        &&& self.big_blind == 2 * self.small_blind
        &&& 2 <= self.min_players <= self.max_players <= MAX_PLAYERS
        &&& ps.len() == self.current_players as int
        &&& ps.len() <= self.max_players
        &&& self.community_cards@.len() == BOARD_SLOTS
        &&& self.pot == sum(contributions(ps))
        &&& self.pot <= CHIP_SUPPLY
        &&& self.current_bet <= CHIP_SUPPLY
        &&& sum(stacks(ps)) + (if self.phase == GamePhase::Complete { 0 } else { self.pot as int })
            <= CHIP_SUPPLY
        &&& ps.len() > 0 ==> self.current_turn < ps.len()
        &&& self.phase != GamePhase::Waiting ==> {
            &&& ps.len() >= self.min_players
            &&& self.dealer_seat < ps.len()
        }
        &&& self.deck_cursor <= DECK_SIZE
        &&& forall|i: int|
            #![trigger ps[i]]
            0 <= i < ps.len() ==> {
                &&& ps[i].player_id == i
                &&& ps[i].current_bet <= ps[i].total_contributed
                &&& ps[i].current_bet <= self.current_bet
            }
        &&& self.phase == GamePhase::Waiting ==> {
            &&& self.pot == 0
            &&& self.current_turn == 0
            &&& self.dealer_seat == 0
            &&& sum(stacks(ps)) == STARTING_CHIPS * ps.len()
        }
    }
}

} // verus!
