//! Reactions and chat messages of seated players.
use vstd::prelude::*;
use crate::state::{ChatMessageSent, Player, ReactionSubmitted, Table};

verus! {

/// Longest chat message kept on the seat, in bytes.
pub const MESSAGE_BYTES: usize = 64;

/// Records a seat's latest reaction.
pub fn submit_reaction(table: &mut Table, seat: usize, reaction_type: u8, now: i64) -> (r: Option<ReactionSubmitted>)
    requires
        old(table).wf(),
    ensures
        final(table).wf(),
        r is None <==> seat >= old(table).players@.len(),
        r is None ==> *final(table) == *old(table),
        r is Some ==> final(table).players@ == old(table).players@.update(
            seat as int,
            Player { last_reaction: reaction_type, last_reaction_ts: now, ..old(table).players@[seat as int] },
        ) && *final(table) == (Table { players: final(table).players, ..*old(table) })
            && r->Some_0.player == old(table).players@[seat as int].wallet
            && r->Some_0.reaction_type == reaction_type,
{
    if seat >= table.players.len() {
        return None;
    }
    let ghost t0 = *table;
    let mut p = table.players[seat];
    p.last_reaction = reaction_type;
    p.last_reaction_ts = now;
    table.players.set(seat, p);
    proof {
        let ps = table.players@;
        assert(crate::state::stacks(ps) =~= crate::state::stacks(t0.players@));
        assert(crate::state::contributions(ps) =~= crate::state::contributions(t0.players@));
        assert forall|j: int| 0 <= j < ps.len() implies #[trigger] ps[j].player_id == j
            && ps[j].current_bet <= ps[j].total_contributed && ps[j].current_bet
            <= table.current_bet by {
            assert(t0.players@[j].player_id == j);
        }
    }
    Some(ReactionSubmitted { table_id: table.table_id, player: p.wallet, reaction_type })
}

/// The first `MESSAGE_BYTES` bytes of a message, zero-padded to that length.
pub open spec fn message_slot(bytes: Seq<u8>) -> Seq<u8> {
    Seq::new(MESSAGE_BYTES as nat, |i: int| if i < bytes.len() { bytes[i] } else { 0u8 })
}

/// Stores a message as a fixed, zero-padded prefix of its bytes.
pub fn fixed_message(message: &[u8]) -> (r: [u8; 64])
    ensures
        r@ == message_slot(message@),
{
    let mut out = [0u8; 64];
    let mut i: usize = 0;
    while i < MESSAGE_BYTES
        invariant
            0 <= i <= MESSAGE_BYTES,
            out@.len() == MESSAGE_BYTES,
            forall|j: int| 0 <= j < i ==> out@[j] == message_slot(message@)[j],
            forall|j: int| i <= j < MESSAGE_BYTES ==> out@[j] == 0,
        decreases MESSAGE_BYTES - i,
    {
        if i < message.len() {
            out.set(i, message[i]);
        }
        i = i + 1;
    }
    assert(out@ =~= message_slot(message@));
    out
}

/// Records a seat's latest chat message, kept as its first bytes.
pub fn send_message(table: &mut Table, seat: usize, message: String, now: i64) -> (r: Option<ChatMessageSent>)
    requires
        old(table).wf(),
    ensures
        final(table).wf(),
        r is None <==> seat >= old(table).players@.len(),
        r is None ==> *final(table) == *old(table),
        r is Some ==> ({
            let p = old(table).players@[seat as int];
            &&& final(table).players@.len() == old(table).players@.len()
            &&& forall|j: int|
                0 <= j < old(table).players@.len() && j != seat ==> #[trigger] final(table).players@[j]
                    == old(table).players@[j]
            &&& final(table).players@[seat as int].last_message@ == message_slot(
                vstd::utf8::encode_utf8(message@),
            )
            &&& final(table).players@[seat as int].last_message_ts == now
            &&& final(table).players@[seat as int] == (Player {
                last_message: final(table).players@[seat as int].last_message,
                last_message_ts: now,
                ..p
            })
            &&& *final(table) == (Table { players: final(table).players, ..*old(table) })
            &&& r->Some_0.player == p.wallet
        }),
{
    if seat >= table.players.len() {
        return None;
    }
    let ghost t0 = *table;
    let fixed = fixed_message(message.as_str().as_bytes());
    let mut p = table.players[seat];
    p.last_message = fixed;
    p.last_message_ts = now;
    table.players.set(seat, p);
    proof {
        let ps = table.players@;
        assert(crate::state::stacks(ps) =~= crate::state::stacks(t0.players@));
        assert(crate::state::contributions(ps) =~= crate::state::contributions(t0.players@));
        assert forall|j: int| 0 <= j < ps.len() implies #[trigger] ps[j].player_id == j
            && ps[j].current_bet <= ps[j].total_contributed && ps[j].current_bet
            <= table.current_bet by {
            assert(t0.players@[j].player_id == j);
        }
    }
    Some(ChatMessageSent { table_id: table.table_id, player: p.wallet, message })
}

} // verus!
