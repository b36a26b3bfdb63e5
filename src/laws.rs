//! Properties of the rules that hold of every match, proved from the
//! contracts of the engine's operations.

use vstd::prelude::*;
use crate::game_types::{Card, CardAbility, GamePhase, GameView, PlayerView, Rank, Suit};
use crate::game_logic::{
    board_score, bond_count, draw_marker, holds_id, index_of, lemma_index_of, owned, play_view,
    rescore_view, rescored, casualties, doomed, eligible_max, scorch_power, scorched, survivors, owned_all, draw_count, revive_blocked, rank_at, suit_at, DECK_SIZE, lemma_score_bound, MAX_CARDS, round_result, wins_after_round, SPY_DRAW,
};

verus! {

/// A rank that a suited card can have: 2 to 10, Jack, Queen, King or Ace.
pub open spec fn suited_rank(r: Rank) -> bool {
    r is Jack || r is Queen || r is King || r is Ace || (r matches Rank::Number(n) && 2 <= n <= 10)
}

/// The rank `r` stands in the `q`-th block of thirteen of the catalog.
pub open spec fn rank_in_block(q: int, r: Rank) -> bool {
    exists|j: int| 0 <= j < 13 && #[trigger] rank_at(13 * q + j) == r
}

/// The catalog: its first 52 cards come in four suits of thirteen
/// positions, in which each of the ranks 2 to 10, Jack, Queen, King and Ace
/// stands once; its last two cards are the jokers, and no other card is.
pub proof fn catalog_law()
    ensures
        forall|i: int| 0 <= i < 52 ==> #[trigger] suit_at(i) != Suit::Joker && rank_at(i) != Rank::Joker,
        forall|i: int| 52 <= i < DECK_SIZE ==> #[trigger] suit_at(i) == Suit::Joker && rank_at(i) == Rank::Joker,
        forall|i: int| 0 <= i < 52 ==> #[trigger] suit_at(i) == suit_at(13 * (i / 13)),
        forall|i: int, k: int|
            0 <= i < 52 && 0 <= k < 52 && i != k && suit_at(i) == suit_at(k)
                ==> #[trigger] rank_at(i) != #[trigger] rank_at(k),
        forall|q: int, r: Rank| 0 <= q < 4 && suited_rank(r) ==> #[trigger] rank_in_block(q, r),
{
    assert forall|i: int, k: int|
        0 <= i < 52 && 0 <= k < 52 && i != k && suit_at(i) == suit_at(k)
            implies #[trigger] rank_at(i) != #[trigger] rank_at(k) by {
        assert(i / 13 == k / 13);
        assert(i % 13 != k % 13);
    }
    assert forall|q: int, r: Rank| 0 <= q < 4 && suited_rank(r) implies #[trigger] rank_in_block(q, r) by {
        let j: int = match r {
            Rank::Number(n) => n - 2,
            Rank::Jack => 9,
            Rank::Queen => 10,
            Rank::King => 11,
            _ => 12,
        };
        assert((13 * q + j) % 13 == j);
        assert(rank_at(13 * q + j) == r);
    }
}

/// Bonding: on any board, each bonding card reads power 6 once the board
/// holds two or more of them and power 2 otherwise; every other card keeps
/// its power, and the score is the sum of the powers.
pub proof fn bonding_law(p: PlayerView)
    requires
        p.board.len() <= MAX_CARDS,
    ensures
        rescore_view(p).board.len() == p.board.len(),
        forall|i: int| 0 <= i < p.board.len() && p.board[i].ability == CardAbility::IronGuard
            ==> #[trigger] rescore_view(p).board[i].current_power == (if bond_count(p.board) >= 2 { 6u8 } else { 2u8 }),
        forall|i: int| 0 <= i < p.board.len() && p.board[i].ability != CardAbility::IronGuard
            ==> #[trigger] rescore_view(p).board[i] == p.board[i],
        rescore_view(p).score as int == board_score(rescore_view(p).board),
{
    lemma_score_bound(rescore_view(p).board);
}

/// Spy: a spy card that is played lands, under the opponent's control, at
/// the end of the opponent's board, and where the pile holds two cards or
/// more the player's hand ends one card larger than before.
pub proof fn spy_law(v: GameView, s: int, i: int, pid: String, oid: String)
    requires
        s == 0 || s == 1,
        0 <= i < v.p(s).hand.len(),
        v.p(s).hand[i].ability == CardAbility::Intel,
    ensures
        play_view(v, s, i, None, pid, oid).p(1 - s).board.last() == owned(v.p(s).hand[i], oid),
        v.deck.len() >= SPY_DRAW ==> play_view(v, s, i, None, pid, oid).p(s).hand.len() == v.p(s).hand.len() + 1,
        v.p(s).board.len() == play_view(v, s, i, None, pid, oid).p(s).board.len(),
        play_view(v, s, i, None, pid, oid).p(s).hand
            == v.p(s).hand.remove(i) + owned_all(v.deck.subrange(0, draw_count(SPY_DRAW as int, v.deck.len() as int)), pid),
        play_view(v, s, i, None, pid, oid).deck
            == v.deck.subrange(draw_count(SPY_DRAW as int, v.deck.len() as int), v.deck.len() as int),
        play_view(v, s, i, None, pid, oid).p(1 - s).board.len() == v.p(1 - s).board.len() + 1,
{
}

/// Revive of an immune card: the discard pile stays as it was, and the
/// revive card itself still stands at the end of the player's board; on a
/// board that the last scoring pass left as it is, the board is the old one
/// with the revive card added, and the pile and the opponent's zones are
/// untouched.
pub proof fn revive_immune_law(v: GameView, s: int, i: int, target: Option<Seq<char>>, pid: String, oid: String)
    requires
        s == 0 || s == 1,
        0 <= i < v.p(s).hand.len(),
        revive_blocked(v, s, v.p(s).hand[i], target),
    ensures
        play_view(v, s, i, target, pid, oid).p(s).discard == v.p(s).discard,
        play_view(v, s, i, target, pid, oid).p(s).board.last() == owned(v.p(s).hand[i], pid),
        play_view(v, s, i, target, pid, oid).p(s).hand == v.p(s).hand.remove(i),
        rescored(v.p(s).board) == v.p(s).board
            ==> play_view(v, s, i, target, pid, oid).p(s).board == v.p(s).board.push(owned(v.p(s).hand[i], pid)),
        play_view(v, s, i, target, pid, oid).deck == v.deck,
        play_view(v, s, i, target, pid, oid).p(1 - s).hand == v.p(1 - s).hand,
        play_view(v, s, i, target, pid, oid).p(1 - s).discard == v.p(1 - s).discard,
{
    let b = v.p(s).board;
    let q = owned(v.p(s).hand[i], pid);
    if rescored(b) == b {
        assert(b.push(q).drop_last() =~= b);
        assert(bond_count(b.push(q)) == bond_count(b));
        assert(rescored(b.push(q)) =~= b.push(q)) by {
            assert forall|k: int| 0 <= k < b.len() implies rescored(b.push(q))[k] == b.push(q)[k] by {
                assert(rescored(b)[k] == b[k]);
            }
        }
    }
}

/// Bounce: the target leaves the board for the end of the hand, and the
/// bounce card takes its place at the end of the board; the number of
/// cards in hand and on the board stays the same.
pub proof fn bounce_law(v: GameView, s: int, i: int, t: Seq<char>, pid: String, oid: String)
    requires
        s == 0 || s == 1,
        0 <= i < v.p(s).hand.len(),
        v.p(s).hand[i].ability == CardAbility::Decoy,
        holds_id(v.p(s).board, t),
        v.p(s).board[index_of(v.p(s).board, t)].ability != CardAbility::Hero,
    ensures
        play_view(v, s, i, Some(t), pid, oid).p(s).hand.last().id@ == t,
        play_view(v, s, i, Some(t), pid, oid).p(s).board.last() == owned(v.p(s).hand[i], pid),
        play_view(v, s, i, Some(t), pid, oid).p(s).hand.len() == v.p(s).hand.len(),
        play_view(v, s, i, Some(t), pid, oid).p(s).board.len() == v.p(s).board.len(),
{
    lemma_index_of(v.p(s).board, t);
}

/// Match end: from a tally of one round each, the round's winner wins the
/// match, and a drawn round, which both players win, ends it as a draw.
pub proof fn match_end_law(v: GameView)
    requires
        v.p0.rounds_won == 1,
        v.p1.rounds_won == 1,
    ensures
        round_result(v).phase == GamePhase::GameEnd,
        v.p0.score > v.p1.score ==> round_result(v).winner == Some(v.p0.id),
        v.p1.score > v.p0.score ==> round_result(v).winner == Some(v.p1.id),
        v.p0.score == v.p1.score ==> round_result(v).winner == Some(draw_marker()),
        v.p0.score > v.p1.score ==> round_result(v).p0.rounds_won == 2 && round_result(v).p1.rounds_won == 1,
        v.p1.score > v.p0.score ==> round_result(v).p1.rounds_won == 2 && round_result(v).p0.rounds_won == 1,
        v.p0.score == v.p1.score ==> round_result(v).p0.rounds_won == 2 && round_result(v).p1.rounds_won == 2,
{
}

/// Match end in general: the match ends exactly when a player reaches two
/// round wins, as a draw when both do; otherwise a new round starts with
/// empty boards and nobody passed.
pub proof fn round_law(v: GameView)
    requires
        v.p0.rounds_won < 255,
        v.p1.rounds_won < 255,
    ensures
        (round_result(v).phase == GamePhase::GameEnd)
            <==> (wins_after_round(v, 0) >= 2 || wins_after_round(v, 1) >= 2),
        wins_after_round(v, 0) >= 2 && wins_after_round(v, 1) >= 2 ==> round_result(v).winner == Some(draw_marker()),
        wins_after_round(v, 0) < 2 && wins_after_round(v, 1) < 2 ==> {
            &&& round_result(v).p0.board.len() == 0
            &&& round_result(v).p1.board.len() == 0
            &&& !round_result(v).p0.passed
            &&& !round_result(v).p1.passed
            &&& round_result(v).round == v.round + 1 || v.round == u32::MAX
        },
{
}

proof fn lemma_eligible_max(b: Seq<Card>)
    ensures
        forall|k: int| 0 <= k < b.len() && b[k].ability != CardAbility::Hero
            ==> #[trigger] b[k].current_power <= eligible_max(b),
    decreases b.len(),
{
    if b.len() > 0 {
        lemma_eligible_max(b.drop_last());
        assert forall|k: int| 0 <= k < b.len() && b[k].ability != CardAbility::Hero
            implies #[trigger] b[k].current_power <= eligible_max(b) by {
            if k < b.len() - 1 {
                assert(b[k] == b.drop_last()[k]);
            }
        }
    }
}

proof fn lemma_scorch_board(b: Seq<Card>, m: u8)
    ensures
        forall|k: int| 0 <= k < b.len() && doomed(b[k], m) ==> casualties(b, m).contains(#[trigger] b[k]),
        forall|k: int| 0 <= k < b.len() && !doomed(b[k], m) ==> survivors(b, m).contains(#[trigger] b[k]),
        forall|j: int| 0 <= j < survivors(b, m).len() ==> !doomed(#[trigger] survivors(b, m)[j], m),
        forall|j: int| 0 <= j < casualties(b, m).len() ==> doomed(#[trigger] casualties(b, m)[j], m),
    decreases b.len(),
{
    if b.len() > 0 {
        let p = b.drop_last();
        lemma_scorch_board(p, m);
        let c = b.last();
        assert forall|k: int| 0 <= k < b.len() && doomed(b[k], m) implies casualties(b, m).contains(#[trigger] b[k]) by {
            if k < b.len() - 1 {
                assert(b[k] == p[k]);
                assert(casualties(p, m).contains(p[k]));
                let w = choose|w: int| 0 <= w < casualties(p, m).len() && casualties(p, m)[w] == p[k];
                if doomed(c, m) {
                    assert(casualties(b, m)[w] == p[k]);
                }
            } else {
                assert(casualties(b, m)[casualties(b, m).len() - 1] == c);
            }
        }
        assert forall|k: int| 0 <= k < b.len() && !doomed(b[k], m) implies survivors(b, m).contains(#[trigger] b[k]) by {
            if k < b.len() - 1 {
                assert(b[k] == p[k]);
                assert(survivors(p, m).contains(p[k]));
                let w = choose|w: int| 0 <= w < survivors(p, m).len() && survivors(p, m)[w] == p[k];
                if !doomed(c, m) {
                    assert(survivors(b, m)[w] == p[k]);
                }
            } else {
                assert(survivors(b, m)[survivors(b, m).len() - 1] == c);
            }
        }
        assert forall|j: int| 0 <= j < survivors(b, m).len() implies !doomed(#[trigger] survivors(b, m)[j], m) by {
            if j < survivors(p, m).len() {
                assert(survivors(b, m)[j] == survivors(p, m)[j]);
            }
        }
        assert forall|j: int| 0 <= j < casualties(b, m).len() implies doomed(#[trigger] casualties(b, m)[j], m) by {
            if j < casualties(p, m).len() {
                assert(casualties(b, m)[j] == casualties(p, m)[j]);
            }
        }
    }
}

/// Area-destroy: it strikes the highest current power among the non-immune
/// cards of both boards. Every non-immune card at that power goes to its own
/// player's discard pile, after what the pile held; every other card stays
/// on its board, and no struck card is left on a board.
pub proof fn scorch_law(v: GameView, s: int)
    requires
        s == 0 || s == 1,
    ensures
        forall|k: int| 0 <= k < v.p(s).board.len() && v.p(s).board[k].ability != CardAbility::Hero
            ==> #[trigger] v.p(s).board[k].current_power <= scorch_power(v),
        forall|k: int| 0 <= k < v.p(s).board.len() && doomed(v.p(s).board[k], scorch_power(v))
            ==> scorched(v).p(s).discard.contains(#[trigger] v.p(s).board[k]),
        forall|k: int| 0 <= k < v.p(s).board.len() && !doomed(v.p(s).board[k], scorch_power(v))
            ==> scorched(v).p(s).board.contains(#[trigger] v.p(s).board[k]),
        forall|j: int| 0 <= j < scorched(v).p(s).board.len()
            ==> !doomed(#[trigger] scorched(v).p(s).board[j], scorch_power(v)),
        scorched(v).p(s).discard.subrange(0, v.p(s).discard.len() as int) == v.p(s).discard,
        scorched(v).p(s).hand == v.p(s).hand,
        scorched(v).deck == v.deck,
{
    let b = v.p(s).board;
    let m = scorch_power(v);
    lemma_eligible_max(b);
    lemma_scorch_board(b, m);
    let d = v.p(s).discard;
    let c = casualties(b, m);
    assert((d + c).subrange(0, d.len() as int) =~= d);
    assert forall|k: int| 0 <= k < b.len() && doomed(b[k], m) implies (d + c).contains(#[trigger] b[k]) by {
        let w = choose|w: int| 0 <= w < c.len() && c[w] == b[k];
        assert((d + c)[d.len() + w] == b[k]);
    }
}

} // verus!
