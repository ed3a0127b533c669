//! Chip arithmetic: moving chips into the pot, splitting the pot into side
//! pots, and checking that a table's ledger is well-formed.
use vstd::prelude::*;
use crate::state::{
    contributions, stacks, sum, GamePhase, Player, PokerError, Table, BOARD_SLOTS, CHIP_SUPPLY,
    DECK_SIZE, MAX_PLAYERS, STARTING_CHIPS,
};

verus! {

pub proof fn lemma_sum_push(s: Seq<u64>, v: u64)
    ensures
        sum(s.push(v)) == sum(s) + v,
{
    assert(s.push(v).drop_last() =~= s);
}

pub proof fn lemma_sum_update(s: Seq<u64>, i: int, v: u64)
    requires
        0 <= i < s.len(),
    ensures
        sum(s.update(i, v)) == sum(s) - s[i] + v,
    decreases s.len(),
{
    if i == s.len() - 1 {
        assert(s.update(i, v).drop_last() =~= s.drop_last());
    } else {
        lemma_sum_update(s.drop_last(), i, v);
        assert(s.update(i, v).drop_last() =~= s.drop_last().update(i, v));
    }
}

pub proof fn lemma_elem_le_sum(s: Seq<u64>, i: int)
    requires
        0 <= i < s.len(),
    ensures
        s[i] <= sum(s),
        0 <= sum(s),
    decreases s.len(),
{
    lemma_sum_nonneg(s.drop_last());
    if i < s.len() - 1 {
        lemma_elem_le_sum(s.drop_last(), i);
    }
}

pub proof fn lemma_sum_nonneg(s: Seq<u64>)
    ensures
        0 <= sum(s),
    decreases s.len(),
{
    if s.len() > 0 {
        lemma_sum_nonneg(s.drop_last());
    }
}

pub proof fn lemma_sum_zeros(s: Seq<u64>)
    requires
        forall|i: int| 0 <= i < s.len() ==> s[i] == 0,
    ensures
        sum(s) == 0,
    decreases s.len(),
{
    if s.len() > 0 {
        lemma_sum_zeros(s.drop_last());
    }
}

/// Replacing one seat moves the stack and contribution sums by the seat's change.
pub proof fn lemma_seat_update(ps: Seq<Player>, i: int, p: Player)
    requires
        0 <= i < ps.len(),
    ensures
        sum(stacks(ps.update(i, p))) == sum(stacks(ps)) - ps[i].chip_count + p.chip_count,
        sum(contributions(ps.update(i, p))) == sum(contributions(ps)) - ps[i].total_contributed
            + p.total_contributed,
{
    assert(stacks(ps.update(i, p)) =~= stacks(ps).update(i, p.chip_count));
    assert(contributions(ps.update(i, p)) =~= contributions(ps).update(i, p.total_contributed));
    lemma_sum_update(stacks(ps), i, p.chip_count);
    lemma_sum_update(contributions(ps), i, p.total_contributed);
}

/// Seat `i` after `amount` chips moved from its stack into the pot.
pub open spec fn after_contribution(p: Player, amount: int) -> Player {
    Player {
        chip_count: (p.chip_count - amount) as u64,
        current_bet: (p.current_bet + amount) as u64,
        total_contributed: (p.total_contributed + amount) as u64,
        ..p
    }
}

/// What `contribute` moves: the amount asked for, or the whole stack when an
/// all-in was asked for and the stack is short; `None` when the stack is short
/// and no all-in was asked for.
pub open spec fn contribution_amount(chips: u64, amount: u64, all_in: bool) -> Option<u64> {
    if amount <= chips {
        Some(amount)
    } else if all_in {
        Some(chips)
    } else {
        None
    }
}

/// Moves chips of one seat into the pot: the stack shrinks, and the seat's bet
/// this round, its contribution this hand and the pot grow, by the same amount.
pub fn contribute(table: &mut Table, seat: usize, amount: u64, all_in: bool) -> (r: Result<
    u64,
    PokerError,
>)
    requires
        old(table).wf(),
        seat < old(table).players@.len(),
        old(table).phase != GamePhase::Complete,
        old(table).phase != GamePhase::Waiting,
    ensures
        r is Ok <==> contribution_amount(old(table).players@[seat as int].chip_count, amount, all_in) is Some,
        r is Ok ==> r->Ok_0 == contribution_amount(
            old(table).players@[seat as int].chip_count,
            amount,
            all_in,
        )->Some_0,
        r is Ok ==> final(table).players@ == old(table).players@.update(
            seat as int,
            after_contribution(old(table).players@[seat as int], r->Ok_0 as int),
        ),
        r is Ok ==> final(table).pot == old(table).pot + r->Ok_0,
        r is Ok ==> final(table).players@.len() == old(table).players@.len(),
        r is Ok ==> sum(contributions(final(table).players@)) == final(table).pot,
        r is Ok ==> sum(stacks(final(table).players@)) + final(table).pot == sum(
            stacks(old(table).players@),
        ) + old(table).pot,
        r is Ok ==> final(table).pot <= CHIP_SUPPLY,
        r is Ok ==> final(table).players@[seat as int].current_bet <= final(table).pot,
        r is Ok ==> final(table).players@[seat as int].chip_count == old(table).players@[seat as int].chip_count - r->Ok_0,
        r is Ok ==> final(table).players@[seat as int].current_bet == old(table).players@[seat as int].current_bet + r->Ok_0,
        r is Ok ==> final(table).players@[seat as int].total_contributed == old(table).players@[seat as int].total_contributed + r->Ok_0,
        r is Ok ==> *final(table) == (Table {
            players: final(table).players,
            pot: final(table).pot,
            ..*old(table)
        }),
        r is Err ==> r == Err::<u64, PokerError>(PokerError::InsufficientChips) && *final(table)
            == *old(table),
{
    let p = table.players[seat];
    let moved: u64 = if amount <= p.chip_count {
        amount
    } else if all_in {
        p.chip_count
    } else {
        return Err(PokerError::InsufficientChips);
    };
    proof {
        let ps = old(table).players@;
        lemma_elem_le_sum(contributions(ps), seat as int);
        lemma_elem_le_sum(stacks(ps), seat as int);
        lemma_sum_nonneg(stacks(ps));
        assert(contributions(ps)[seat as int] == p.total_contributed);
        assert(stacks(ps)[seat as int] == p.chip_count);
    }
    let mut q = p;
    q.chip_count = p.chip_count - moved;
    q.current_bet = p.current_bet + moved;
    q.total_contributed = p.total_contributed + moved;
    table.players.set(seat, q);
    table.pot = table.pot + moved;
    proof {
        let ps = old(table).players@;
        lemma_seat_update(ps, seat as int, q);
        assert(q == after_contribution(p, moved as int));
        let nps = table.players@;
        lemma_sum_nonneg(stacks(nps));
        lemma_elem_le_sum(contributions(nps), seat as int);
        assert(contributions(nps)[seat as int] == q.total_contributed);
    }
    Ok(moved)
}

/// One pot of the hand: the chips put in between the previous level and
/// `level`, winnable by the seats marked in `eligible`.
#[derive(Clone, Debug)]
pub struct SidePot {
    pub level: u64,
    pub amount: u64,
    pub eligible: Vec<bool>,
}

/// Sum over the first `j` contributions, each capped at `level`.
pub open spec fn capped(c: Seq<u64>, level: int, j: int) -> int
    decreases j,
{
    if j <= 0 {
        0
    } else {
        capped(c, level, j - 1) + if c[j - 1] < level {
            c[j - 1] as int
        } else {
            level
        }
    }
}

/// Total of a list of pots.
pub open spec fn pots_total(pots: Seq<SidePot>) -> int
    decreases pots.len(),
{
    if pots.len() == 0 {
        0
    } else {
        pots_total(pots.drop_last()) + pots.last().amount
    }
}

/// The level below pot `k`: the previous pot's level, or nothing for the first.
pub open spec fn level_below(pots: Seq<SidePot>, k: int) -> int {
    if k <= 0 {
        0
    } else {
        pots[k - 1].level as int
    }
}

pub proof fn lemma_capped_mono(c: Seq<u64>, a: int, b: int, j: int)
    requires
        0 <= a <= b,
        0 <= j <= c.len(),
    ensures
        0 <= capped(c, a, j) <= capped(c, b, j),
        capped(c, b, j) <= sum(c.take(j)),
        capped(c, b, j) - capped(c, a, j) <= capped(c, b, j),
    decreases j,
{
    if j > 0 {
        lemma_capped_mono(c, a, b, j - 1);
        lemma_sum_take_step(c, j - 1);
    }
}

proof fn lemma_sum_take_step(s: Seq<u64>, k: int)
    requires
        0 <= k < s.len(),
    ensures
        sum(s.take(k + 1)) == sum(s.take(k)) + s[k],
{
    assert(s.take(k + 1).drop_last() =~= s.take(k));
}

proof fn lemma_capped_full(c: Seq<u64>, level: int, j: int)
    requires
        0 <= j <= c.len(),
        forall|i: int| 0 <= i < c.len() ==> c[i] <= level,
    ensures
        capped(c, level, j) == sum(c.take(j)),
    decreases j,
{
    if j > 0 {
        lemma_capped_full(c, level, j - 1);
        lemma_sum_take_step(c, j - 1);
    }
}

/// The smallest contribution above `prev`, when there is one.
fn next_level(c: &Vec<u64>, prev: u64) -> (r: Option<u64>)
    ensures
        r is None <==> forall|j: int| 0 <= j < c@.len() ==> c@[j] <= prev,
        r is Some ==> r->Some_0 > prev && (exists|j: int| 0 <= j < c@.len() && c@[j] == r->Some_0)
            && forall|j: int| 0 <= j < c@.len() && c@[j] > prev ==> c@[j] >= r->Some_0,
{
    let mut best: Option<u64> = None;
    let mut j: usize = 0;
    while j < c.len()
        invariant
            0 <= j <= c@.len(),
            best is None <==> forall|i: int| 0 <= i < j ==> c@[i] <= prev,
            best is Some ==> best->Some_0 > prev && (exists|i: int| 0 <= i < j && c@[i] == best->Some_0)
                && forall|i: int| 0 <= i < j && c@[i] > prev ==> c@[i] >= best->Some_0,
        decreases c@.len() - j,
    {
        let v = c[j];
        if v > prev {
            match best {
                None => {
                    best = Some(v);
                },
                Some(b) => {
                    if v < b {
                        best = Some(v);
                    }
                },
            }
        }
        j = j + 1;
    }
    best
}

/// The pot between two levels: what every seat put in above `prev` and up to
/// `next`, and which seats can win it.
fn level_pot(c: &Vec<u64>, active: &Vec<bool>, prev: u64, next: u64) -> (pot: SidePot)
    requires
        c@.len() == active@.len(),
        prev < next,
        sum(c@) <= u64::MAX,
    ensures
        pot.level == next,
        pot.amount == capped(c@, next as int, c@.len() as int) - capped(c@, prev as int, c@.len() as int),
        pot.eligible@.len() == c@.len(),
        forall|i: int| 0 <= i < c@.len() ==> #[trigger] pot.eligible@[i] == (active@[i] && c@[i] >= next),
{
    let n = c.len();
    let mut amount: u64 = 0;
    let mut eligible: Vec<bool> = Vec::new();
    let mut j: usize = 0;
    while j < n
        invariant
            0 <= j <= n,
            n == c@.len(),
            n == active@.len(),
            prev < next,
            sum(c@) <= u64::MAX,
            amount == capped(c@, next as int, j as int) - capped(c@, prev as int, j as int),
            eligible@.len() == j,
            forall|i: int| 0 <= i < j ==> #[trigger] eligible@[i] == (active@[i] && c@[i] >= next),
        decreases n - j,
    {
        proof {
            lemma_capped_mono(c@, prev as int, next as int, j as int + 1);
            crate::settlement::lemma_sum_prefix(c@, j as int + 1);
        }
        let hi = if c[j] < next {
            c[j]
        } else {
            next
        };
        let lo = if c[j] < prev {
            c[j]
        } else {
            prev
        };
        amount = amount + (hi - lo);
        eligible.push(active[j] && c[j] >= next);
        j = j + 1;
    }
    SidePot { level: next, amount, eligible }
}

proof fn lemma_capped_zero(c: Seq<u64>, j: int)
    requires
        0 <= j <= c.len(),
    ensures
        capped(c, 0, j) == 0,
    decreases j,
{
    if j > 0 {
        lemma_capped_zero(c, j - 1);
    }
}

/// Pot `p`, lying above `below`, holds what every seat put in between the
/// two levels and can be won by the active seats that reached its level.
pub open spec fn pot_valid(c: Seq<u64>, active: Seq<bool>, p: SidePot, below: int) -> bool {
    &&& p.level > below
    &&& p.amount == capped(c, p.level as int, c.len() as int) - capped(c, below, c.len() as int)
    &&& p.eligible@.len() == c.len()
    &&& forall|j: int|
        0 <= j < c.len() ==> #[trigger] p.eligible@[j] == (active[j] && c[j] >= p.level)
}

/// Pots in ascending order of level, each valid above the one before it.
pub open spec fn pots_valid(c: Seq<u64>, active: Seq<bool>, pots: Seq<SidePot>) -> bool {
    forall|k: int|
        0 <= k < pots.len() ==> #[trigger] pot_valid(c, active, pots[k], level_below(pots, k))
}

proof fn lemma_push_pot(c: Seq<u64>, active: Seq<bool>, pots: Seq<SidePot>, p: SidePot, prev: int)
    requires
        pots_valid(c, active, pots),
        pots.len() > 0 ==> pots.last().level == prev,
        pots.len() == 0 ==> prev == 0,
        pot_valid(c, active, p, prev),
    ensures
        pots_valid(c, active, pots.push(p)),
        pots_total(pots.push(p)) == pots_total(pots) + p.amount,
{
    let q = pots.push(p);
    assert(q.drop_last() =~= pots);
    assert forall|k: int| 0 <= k < q.len() implies #[trigger] pot_valid(c, active, q[k], level_below(q, k)) by {
        if k < pots.len() {
            assert(q[k] == pots[k]);
            if k > 0 {
                assert(q[k - 1] == pots[k - 1]);
            }
            assert(pot_valid(c, active, pots[k], level_below(pots, k)));
        } else if k > 0 {
            assert(q[k - 1] == pots[k - 1]);
        }
    }
}

/// Every positive contribution up to `upto` is the level of some pot.
#[verifier::opaque]
pub open spec fn levels_cover(c: Seq<u64>, pots: Seq<SidePot>, upto: int) -> bool {
    forall|j: int|
        #![trigger c[j]]
        0 <= j < c.len() && 0 < c[j] <= upto ==> exists|k: int|
            0 <= k < pots.len() && #[trigger] pots[k].level == c[j]
}

proof fn lemma_cover_push(c: Seq<u64>, pots: Seq<SidePot>, p: SidePot, prev: int)
    requires
        levels_cover(c, pots, prev),
        p.level > prev,
        forall|j: int| 0 <= j < c.len() && c[j] > prev ==> c[j] >= p.level,
    ensures
        levels_cover(c, pots.push(p), p.level as int),
{
    reveal(levels_cover);
    let q = pots.push(p);
    assert forall|j: int|
        #![trigger c[j]]
        0 <= j < c.len() && 0 < c[j] <= p.level implies exists|k: int|
        0 <= k < q.len() && #[trigger] q[k].level == c[j] by {
        if c[j] <= prev {
            let k = choose|k: int| 0 <= k < pots.len() && #[trigger] pots[k].level == c[j];
            assert(q[k] == pots[k]);
        } else {
            assert(q[q.len() - 1] == p);
        }
    }
}

/// Every pot's level is some seat's contribution.
#[verifier::opaque]
pub open spec fn levels_reached(c: Seq<u64>, pots: Seq<SidePot>) -> bool {
    forall|k: int|
        0 <= k < pots.len() ==> exists|j: int| 0 <= j < c.len() && c[j] == #[trigger] pots[k].level
}

proof fn lemma_reached_push(c: Seq<u64>, pots: Seq<SidePot>, p: SidePot)
    requires
        levels_reached(c, pots),
        exists|j: int| 0 <= j < c.len() && c[j] == p.level,
    ensures
        levels_reached(c, pots.push(p)),
{
    reveal(levels_reached);
    let q = pots.push(p);
    assert forall|k: int| 0 <= k < q.len() implies exists|j: int|
        0 <= j < c.len() && c[j] == #[trigger] q[k].level by {
        if k < pots.len() {
            assert(q[k] == pots[k]);
        }
    }
}

proof fn lemma_cover_ends(c: Seq<u64>, pots: Seq<SidePot>, prev: int)
    requires
        levels_cover(c, pots, prev),
        forall|j: int| 0 <= j < c.len() ==> c[j] <= prev,
    ensures
        levels_cover(c, pots, u64::MAX as int),
{
    reveal(levels_cover);
}

proof fn lemma_cover_starts(c: Seq<u64>)
    ensures
        levels_cover(c, Seq::<SidePot>::empty(), 0),
        levels_reached(c, Seq::<SidePot>::empty()),
{
    reveal(levels_cover);
    reveal(levels_reached);
}

/// Splits the pot by contribution level: the distinct contributions, in
/// ascending order, each give a pot made of what every seat put in between
/// the level below and that level, winnable only by the active seats that
/// reached it. The pots add up to the contributions exactly; a level that
/// only one seat reached forms a pot that only that seat can take back.
pub fn compute_side_pots(contributions: &Vec<u64>, active: &Vec<bool>) -> (pots: Vec<SidePot>)
    requires
        contributions@.len() == active@.len(),
        sum(contributions@) <= u64::MAX,
    ensures
        pots_total(pots@) == sum(contributions@),
        pots_valid(contributions@, active@, pots@),
        levels_reached(contributions@, pots@),
        levels_cover(contributions@, pots@, u64::MAX as int),
{
    let c = contributions;
    let n = c.len();
    let ghost cs = c@;
    let mut pots: Vec<SidePot> = Vec::new();
    let mut prev: u64 = 0;
    proof {
        lemma_capped_zero(cs, n as int);
        lemma_cover_starts(cs);
        assert(pots@ =~= Seq::<SidePot>::empty());
    }
    loop
        invariant
            n == cs.len(),
            cs == c@,
            n == active@.len(),
            sum(cs) <= u64::MAX,
            pots_total(pots@) == capped(cs, prev as int, n as int),
            pots@.len() > 0 ==> pots@.last().level == prev,
            pots@.len() == 0 ==> prev == 0,
            pots_valid(cs, active@, pots@),
            levels_reached(cs, pots@),
            levels_cover(cs, pots@, prev as int),
        ensures
            forall|j: int| 0 <= j < n ==> cs[j] <= prev,
            n == cs.len(),
            cs == c@,
            pots_total(pots@) == capped(cs, prev as int, n as int),
            pots_valid(cs, active@, pots@),
            levels_reached(cs, pots@),
            levels_cover(cs, pots@, prev as int),
        decreases u64::MAX - prev,
    {
        let next = match next_level(c, prev) {
            None => break,
            Some(v) => v,
        };
        let pot = level_pot(c, active, prev, next);
        let ghost old_pots = pots@;
        proof {
            lemma_push_pot(cs, active@, old_pots, pot, prev as int);
            lemma_cover_push(cs, old_pots, pot, prev as int);
            lemma_reached_push(cs, old_pots, pot);
        }
        pots.push(pot);
        prev = next;
    }
    proof {
        lemma_capped_full(cs, prev as int, n as int);
        assert(cs.take(n as int) =~= cs);
        lemma_cover_ends(cs, pots@, prev as int);
    }
    pots
}

/// Whether a table is well-formed, for callers outside verified code that
/// must establish it before handing the table to an operation.
pub fn table_well_formed(t: &Table) -> (r: bool)
    ensures
        r == t.wf(),
{
    if t.small_blind == 0 || t.small_blind > u64::MAX / 2 || t.big_blind != t.small_blind * 2 {
        return false;
    }
    if t.min_players < 2 || t.min_players > t.max_players || t.max_players as usize > MAX_PLAYERS {
        return false;
    }
    let n = t.players.len();
    if n != t.current_players as usize || n > t.max_players as usize {
        return false;
    }
    if t.community_cards.len() != BOARD_SLOTS || t.pot > CHIP_SUPPLY || t.current_bet > CHIP_SUPPLY {
        return false;
    }
    if (n > 0 && t.current_turn as usize >= n) || t.deck_cursor > DECK_SIZE {
        return false;
    }
    let ghost st = stacks(t.players@);
    let ghost co = contributions(t.players@);
    let mut chips: u128 = 0;
    let mut given: u128 = 0;
    let mut i: usize = 0;
    while i < n
        invariant
            0 <= i <= n,
            n == t.players@.len(),
            n <= MAX_PLAYERS,
            st == stacks(t.players@),
            co == contributions(t.players@),
            chips == sum(st.take(i as int)),
            given == sum(co.take(i as int)),
            chips <= i * 0xFFFF_FFFF_FFFF_FFFFu128,
            given <= i * 0xFFFF_FFFF_FFFF_FFFFu128,
            forall|j: int|
                #![trigger t.players@[j]]
                0 <= j < i ==> {
                    &&& t.players@[j].player_id == j
                    &&& t.players@[j].current_bet <= t.players@[j].total_contributed
                    &&& t.players@[j].current_bet <= t.current_bet
                },
        decreases n - i,
    {
        let p = t.players[i];
        if p.player_id as usize != i || p.current_bet > p.total_contributed || p.current_bet
            > t.current_bet {
            return false;
        }
        proof {
            crate::settlement::lemma_sum_prefix(st, i as int);
            crate::settlement::lemma_sum_prefix(co, i as int);
        }
        assert(st[i as int] == p.chip_count);
        assert(co[i as int] == p.total_contributed);
        chips = chips + p.chip_count as u128;
        given = given + p.total_contributed as u128;
        i = i + 1;
    }
    assert(st.take(n as int) =~= st);
    assert(co.take(n as int) =~= co);
    if given != t.pot as u128 {
        return false;
    }
    let held: u128 = if matches!(t.phase, GamePhase::Complete) {
        0
    } else {
        t.pot as u128
    };
    if chips + held > CHIP_SUPPLY as u128 {
        return false;
    }
    if !matches!(t.phase, GamePhase::Waiting) {
        if n < t.min_players as usize || t.dealer_seat as usize >= n {
            return false;
        }
    } else {
        if t.pot != 0 || t.current_turn != 0 || t.dealer_seat != 0 || chips != STARTING_CHIPS as u128
            * n as u128 {
            return false;
        }
    }
    true
}

} // verus!
