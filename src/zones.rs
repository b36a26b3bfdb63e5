//! The population of identifiers across all zones of a match, and the
//! proof that every move of the rules keeps it.

use vstd::prelude::*;
use vstd::multiset::Multiset;
use crate::game_types::{Card, GameView, PlayerView};
use crate::game_logic::{
    ability_view, holds_id, index_of, lemma_index_of, next_round, pass_view, play_view,
    revive_view, round_result, spy_view, kept, replaced, SPY_DRAW, casualties, cut_board, cut_discard, cut_hand, draw_count, draw_view, owned, owned_all, put_board,
    put_hand, rescore_all, rescore_card, rescore_view, rescored, scorch_player, scorched, survivors,
};

verus! {

/// The identifiers of the cards of `s`, with multiplicity.
pub open spec fn ids_of(s: Seq<Card>) -> Multiset<Seq<char>>
    decreases s.len(),
{
    if s.len() == 0 {
        Multiset::empty()
    } else {
        ids_of(s.drop_last()).insert(s.last().id@)
    }
}

/// The identifiers in a player's hand, board and discard pile.
pub open spec fn player_ids(p: PlayerView) -> Multiset<Seq<char>> {
    ids_of(p.hand).add(ids_of(p.board)).add(ids_of(p.discard))
}

/// The identifiers in every zone of a match: the draw pile, and both
/// players' hands, boards and discard piles.
pub open spec fn zone_ids(v: GameView) -> Multiset<Seq<char>> {
    ids_of(v.deck).add(player_ids(v.p0)).add(player_ids(v.p1))
}

pub proof fn lemma_ids_push(s: Seq<Card>, c: Card)
    ensures
        ids_of(s.push(c)) == ids_of(s).insert(c.id@),
{
    assert(s.push(c).drop_last() =~= s);
}

pub proof fn lemma_ids_concat(a: Seq<Card>, b: Seq<Card>)
    ensures
        ids_of(a + b) == ids_of(a).add(ids_of(b)),
    decreases b.len(),
{
    if b.len() == 0 {
        assert(a + b =~= a);
        assert(ids_of(a).add(ids_of(b)) =~= ids_of(a));
    } else {
        lemma_ids_concat(a, b.drop_last());
        assert((a + b).drop_last() =~= a + b.drop_last());
        assert(ids_of(a + b) =~= ids_of(a).add(ids_of(b)));
    }
}

pub proof fn lemma_ids_remove(s: Seq<Card>, i: int)
    requires
        0 <= i < s.len(),
    ensures
        ids_of(s.remove(i)).insert(s[i].id@) == ids_of(s),
{
    let a = s.subrange(0, i);
    let b = s.subrange(i + 1, s.len() as int);
    assert(s.remove(i) =~= a + b);
    assert(s =~= a.push(s[i]) + b);
    lemma_ids_concat(a, b);
    lemma_ids_concat(a.push(s[i]), b);
    lemma_ids_push(a, s[i]);
    assert(ids_of(s.remove(i)).insert(s[i].id@) =~= ids_of(s));
}

pub proof fn lemma_ids_split(s: Seq<Card>, k: int)
    requires
        0 <= k <= s.len(),
    ensures
        ids_of(s.subrange(0, k)).add(ids_of(s.subrange(k, s.len() as int))) == ids_of(s),
{
    assert(s =~= s.subrange(0, k) + s.subrange(k, s.len() as int));
    lemma_ids_concat(s.subrange(0, k), s.subrange(k, s.len() as int));
}

pub proof fn lemma_ids_owned(s: Seq<Card>, o: String)
    ensures
        ids_of(owned_all(s, o)) == ids_of(s),
    decreases s.len(),
{
    if s.len() > 0 {
        lemma_ids_owned(s.drop_last(), o);
        assert(owned_all(s, o).drop_last() =~= owned_all(s.drop_last(), o));
    }
}

proof fn lemma_ids_rescore_n(s: Seq<Card>, n: nat)
    ensures
        ids_of(s.map_values(|c: Card| rescore_card(c, n))) == ids_of(s),
    decreases s.len(),
{
    if s.len() > 0 {
        lemma_ids_rescore_n(s.drop_last(), n);
        assert(s.map_values(|c: Card| rescore_card(c, n)).drop_last() =~= s.drop_last().map_values(|c: Card| rescore_card(c, n)));
    }
}

pub proof fn lemma_ids_scorch(s: Seq<Card>, m: u8)
    ensures
        ids_of(survivors(s, m)).add(ids_of(casualties(s, m))) == ids_of(s),
    decreases s.len(),
{
    if s.len() > 0 {
        lemma_ids_scorch(s.drop_last(), m);
        lemma_ids_push(survivors(s.drop_last(), m), s.last());
        lemma_ids_push(casualties(s.drop_last(), m), s.last());
        assert(ids_of(survivors(s, m)).add(ids_of(casualties(s, m))) =~= ids_of(s));
    }
}

/// Adding a card to a board adds its identifier.
pub proof fn lemma_put_board(v: GameView, s: int, c: Card)
    requires
        s == 0 || s == 1,
    ensures
        zone_ids(put_board(v, s, c)) == zone_ids(v).insert(c.id@),
{
    lemma_ids_push(v.p(s).board, c);
    assert(zone_ids(put_board(v, s, c)) =~= zone_ids(v).insert(c.id@));
}

/// Adding a card to a hand adds its identifier.
pub proof fn lemma_put_hand(v: GameView, s: int, c: Card)
    requires
        s == 0 || s == 1,
    ensures
        zone_ids(put_hand(v, s, c)) == zone_ids(v).insert(c.id@),
{
    lemma_ids_push(v.p(s).hand, c);
    assert(zone_ids(put_hand(v, s, c)) =~= zone_ids(v).insert(c.id@));
}

/// Taking a card out of a hand takes out its identifier.
pub proof fn lemma_cut_hand(v: GameView, s: int, i: int)
    requires
        s == 0 || s == 1,
        0 <= i < v.p(s).hand.len(),
    ensures
        zone_ids(cut_hand(v, s, i)).insert(v.p(s).hand[i].id@) == zone_ids(v),
{
    lemma_ids_remove(v.p(s).hand, i);
    assert(zone_ids(cut_hand(v, s, i)).insert(v.p(s).hand[i].id@) =~= zone_ids(v));
}

/// Taking a card off a board takes out its identifier.
pub proof fn lemma_cut_board(v: GameView, s: int, i: int)
    requires
        s == 0 || s == 1,
        0 <= i < v.p(s).board.len(),
    ensures
        zone_ids(cut_board(v, s, i)).insert(v.p(s).board[i].id@) == zone_ids(v),
{
    lemma_ids_remove(v.p(s).board, i);
    assert(zone_ids(cut_board(v, s, i)).insert(v.p(s).board[i].id@) =~= zone_ids(v));
}

/// Taking a card out of a discard pile takes out its identifier.
pub proof fn lemma_cut_discard(v: GameView, s: int, i: int)
    requires
        s == 0 || s == 1,
        0 <= i < v.p(s).discard.len(),
    ensures
        zone_ids(cut_discard(v, s, i)).insert(v.p(s).discard[i].id@) == zone_ids(v),
{
    lemma_ids_remove(v.p(s).discard, i);
    assert(zone_ids(cut_discard(v, s, i)).insert(v.p(s).discard[i].id@) =~= zone_ids(v));
}

/// Drawing moves identifiers from the pile to a hand.
pub proof fn lemma_draw(v: GameView, s: int, n: int, o: String)
    requires
        s == 0 || s == 1,
        n >= 0,
    ensures
        zone_ids(draw_view(v, s, n, o)) == zone_ids(v),
{
    let k = draw_count(n, v.deck.len() as int);
    lemma_ids_split(v.deck, k);
    lemma_ids_owned(v.deck.subrange(0, k), o);
    lemma_ids_concat(v.p(s).hand, owned_all(v.deck.subrange(0, k), o));
    assert(zone_ids(draw_view(v, s, n, o)) =~= zone_ids(v));
}

/// Area-destroy moves identifiers from boards to discard piles.
pub proof fn lemma_scorched(v: GameView)
    ensures
        zone_ids(scorched(v)) == zone_ids(v),
{
    let m = crate::game_logic::scorch_power(v);
    lemma_ids_scorch(v.p0.board, m);
    lemma_ids_scorch(v.p1.board, m);
    lemma_ids_concat(v.p0.discard, casualties(v.p0.board, m));
    lemma_ids_concat(v.p1.discard, casualties(v.p1.board, m));
    assert(zone_ids(scorched(v)) =~= zone_ids(v));
}

/// The scoring pass changes no identifier.
pub proof fn lemma_rescore_all(v: GameView)
    ensures
        zone_ids(rescore_all(v)) == zone_ids(v),
{
    lemma_ids_rescore_n(v.p0.board, crate::game_logic::bond_count(v.p0.board));
    lemma_ids_rescore_n(v.p1.board, crate::game_logic::bond_count(v.p1.board));
    assert(rescored(v.p0.board) =~= v.p0.board.map_values(|c: Card| rescore_card(c, crate::game_logic::bond_count(v.p0.board))));
    assert(rescored(v.p1.board) =~= v.p1.board.map_values(|c: Card| rescore_card(c, crate::game_logic::bond_count(v.p1.board))));
    assert(zone_ids(rescore_all(v)) =~= zone_ids(v));
}

/// Two sequences of cards with the same identifiers, position by position,
/// hold the same identifiers.
pub proof fn lemma_ids_same(a: Seq<Card>, b: Seq<Card>)
    requires
        a.len() == b.len(),
        forall|q: int| 0 <= q < a.len() ==> a[q].id@ == b[q].id@,
    ensures
        ids_of(a) == ids_of(b),
    decreases a.len(),
{
    if a.len() > 0 {
        lemma_ids_same(a.drop_last(), b.drop_last());
    }
}

/// Splitting a hand for a mulligan keeps every identifier.
pub proof fn lemma_ids_mulligan_split(h: Seq<Card>, ids: Seq<String>)
    ensures
        ids_of(kept(h, ids)).add(ids_of(replaced(h, ids))) == ids_of(h),
    decreases h.len(),
{
    if h.len() > 0 {
        lemma_ids_mulligan_split(h.drop_last(), ids);
        lemma_ids_push(kept(h.drop_last(), ids), h.last());
        lemma_ids_push(replaced(h.drop_last(), ids), h.last());
        assert(ids_of(kept(h, ids)).add(ids_of(replaced(h, ids))) =~= ids_of(h));
    }
}

/// A revive, once the revive card stands, keeps every identifier.
pub proof fn lemma_revive(v: GameView, s: int, target: Option<Seq<char>>, pid: String, oid: String)
    requires
        s == 0 || s == 1,
    ensures
        zone_ids(revive_view(v, s, target, pid, oid)) == zone_ids(v),
{
    if target is Some && holds_id(v.p(s).discard, target->0) {
        lemma_index_of(v.p(s).discard, target->0);
        let j = index_of(v.p(s).discard, target->0);
        let r = v.p(s).discard[j];
        let v1 = cut_discard(v, s, j);
        lemma_cut_discard(v, s, j);
        if r.ability == crate::game_types::CardAbility::Hero {
        } else if r.ability == crate::game_types::CardAbility::Intel {
            lemma_put_board(v1, 1 - s, owned(r, oid));
            lemma_draw(put_board(v1, 1 - s, owned(r, oid)), s, SPY_DRAW as int, pid);
        } else if r.ability == crate::game_types::CardAbility::Burn {
            lemma_put_board(v1, s, owned(r, pid));
            lemma_scorched(put_board(v1, s, owned(r, pid)));
        } else {
            lemma_put_board(v1, s, owned(r, pid));
        }
    }
}

/// A card's ability, once the card is out of the hand, adds its identifier
/// and moves the others.
pub proof fn lemma_ability(v: GameView, s: int, c: Card, target: Option<Seq<char>>, pid: String, oid: String)
    requires
        s == 0 || s == 1,
        c.ability == crate::game_types::CardAbility::Decoy ==> target is Some && holds_id(v.p(s).board, target->0),
    ensures
        zone_ids(ability_view(v, s, c, target, pid, oid)) == zone_ids(v).insert(c.id@),
{
    match c.ability {
        crate::game_types::CardAbility::Intel => {
            lemma_put_board(v, 1 - s, owned(c, oid));
            lemma_draw(put_board(v, 1 - s, owned(c, oid)), s, SPY_DRAW as int, pid);
        },
        crate::game_types::CardAbility::Medic => {
            lemma_put_board(v, s, owned(c, pid));
            lemma_revive(put_board(v, s, owned(c, pid)), s, target, pid, oid);
        },
        crate::game_types::CardAbility::Decoy => {
            lemma_index_of(v.p(s).board, target->0);
            let j = index_of(v.p(s).board, target->0);
            let t = v.p(s).board[j];
            lemma_cut_board(v, s, j);
            lemma_put_hand(cut_board(v, s, j), s, owned(t, pid));
            lemma_put_board(put_hand(cut_board(v, s, j), s, owned(t, pid)), s, owned(c, pid));
            assert(zone_ids(ability_view(v, s, c, target, pid, oid)) =~= zone_ids(v).insert(c.id@));
        },
        crate::game_types::CardAbility::Burn => {
            lemma_put_board(v, s, owned(c, pid));
            lemma_scorched(put_board(v, s, owned(c, pid)));
        },
        _ => {
            lemma_put_board(v, s, owned(c, pid));
        },
    }
}

/// Playing a card keeps the identifiers of every zone together.
pub proof fn lemma_play(v: GameView, s: int, i: int, target: Option<Seq<char>>, pid: String, oid: String)
    requires
        s == 0 || s == 1,
        0 <= i < v.p(s).hand.len(),
        v.p(s).hand[i].ability == crate::game_types::CardAbility::Decoy
            ==> target is Some && holds_id(v.p(s).board, target->0),
    ensures
        zone_ids(play_view(v, s, i, target, pid, oid)) == zone_ids(v),
{
    let c = v.p(s).hand[i];
    let v1 = cut_hand(v, s, i);
    lemma_cut_hand(v, s, i);
    assert(v1.p(s).board == v.p(s).board);
    lemma_ability(v1, s, c, target, pid, oid);
    lemma_rescore_all(ability_view(v1, s, c, target, pid, oid));
}

proof fn lemma_next_round(p: PlayerView)
    ensures
        player_ids(next_round(p)) == player_ids(p),
{
    lemma_ids_concat(p.discard, p.board);
    assert(player_ids(next_round(p)) =~= player_ids(p));
}

/// Scoring a round keeps the identifiers of every zone together.
pub proof fn lemma_round(v: GameView)
    ensures
        zone_ids(round_result(v)) == zone_ids(v),
{
    let w0 = crate::game_logic::wins_after_round(v, 0);
    let w1 = crate::game_logic::wins_after_round(v, 1);
    let p0 = PlayerView { rounds_won: w0 as u8, ..v.p0 };
    let p1 = PlayerView { rounds_won: w1 as u8, ..v.p1 };
    lemma_next_round(p0);
    lemma_next_round(p1);
}

/// Passing keeps the identifiers of every zone together.
pub proof fn lemma_pass(v: GameView, s: int)
    requires
        s == 0 || s == 1,
    ensures
        zone_ids(pass_view(v, s)) == zone_ids(v),
{
    let v1 = v.with_p(s, PlayerView { passed: true, ..v.p(s) });
    assert(zone_ids(v1) == zone_ids(v));
    lemma_round(v1);
}

/// A mulligan's exchange between a hand `h` and the pile `d`, where `d1` is
/// the pile with the replaced cards at its back, keeps every identifier.
pub proof fn lemma_mulligan_ids(h: Seq<Card>, ids: Seq<String>, d: Seq<Card>, d1: Seq<Card>, n: int, pid: String)
    requires
        replaced(h, ids).len() == n,
        d1.len() == d.len() + n,
        forall|q: int| 0 <= q < d1.len() ==> d1[q].id@ == (d + replaced(h, ids))[q].id@,
    ensures
        ids_of(kept(h, ids) + owned_all(d1.subrange(0, n), pid)).add(ids_of(d1.subrange(n, d1.len() as int)))
            == ids_of(h).add(ids_of(d)),
{
    let o = replaced(h, ids);
    let k = kept(h, ids);
    let lo = d1.subrange(0, n);
    let hi = d1.subrange(n, d1.len() as int);
    lemma_ids_same(d1, d + o);
    lemma_ids_concat(d, o);
    lemma_ids_split(d1, n);
    lemma_ids_owned(lo, pid);
    lemma_ids_concat(k, owned_all(lo, pid));
    lemma_ids_mulligan_split(h, ids);
    let lhs = ids_of(k + owned_all(lo, pid)).add(ids_of(hi));
    let rhs = ids_of(h).add(ids_of(d));
    assert(ids_of(k + owned_all(lo, pid)) == ids_of(k).add(ids_of(lo)));
    assert(ids_of(lo).add(ids_of(hi)) == ids_of(d1));
    assert(ids_of(d1) == ids_of(d).add(ids_of(o)));
    assert(ids_of(k).add(ids_of(o)) == ids_of(h));
    assert forall|x: Seq<char>| lhs.count(x) == rhs.count(x) by {
        assert(ids_of(lo).add(ids_of(hi)).count(x) == ids_of(d).add(ids_of(o)).count(x));
        assert(ids_of(k).add(ids_of(o)).count(x) == ids_of(h).count(x));
    }
    assert(lhs =~= rhs);
}

/// A change to one player's hand and the pile alone, that keeps their
/// identifiers together, keeps those of every zone.
pub proof fn lemma_hand_and_deck(v: GameView, w: GameView, s: int)
    requires
        s == 0 || s == 1,
        w.p(1 - s) == v.p(1 - s),
        w.p(s).board == v.p(s).board,
        w.p(s).discard == v.p(s).discard,
        ids_of(w.p(s).hand).add(ids_of(w.deck)) == ids_of(v.p(s).hand).add(ids_of(v.deck)),
    ensures
        zone_ids(w) == zone_ids(v),
{
    assert forall|x: Seq<char>| zone_ids(w).count(x) == zone_ids(v).count(x) by {
        assert(ids_of(w.p(s).hand).add(ids_of(w.deck)).count(x) == ids_of(v.p(s).hand).add(ids_of(v.deck)).count(x));
        assert(zone_ids(w).count(x) == ids_of(w.deck).count(x) + player_ids(w.p0).count(x) + player_ids(w.p1).count(x));
        assert(zone_ids(v).count(x) == ids_of(v.deck).count(x) + player_ids(v.p0).count(x) + player_ids(v.p1).count(x));
        assert(player_ids(w.p(s)).count(x) == ids_of(w.p(s).hand).count(x) + ids_of(w.p(s).board).count(x) + ids_of(w.p(s).discard).count(x));
        assert(player_ids(v.p(s)).count(x) == ids_of(v.p(s).hand).count(x) + ids_of(v.p(s).board).count(x) + ids_of(v.p(s).discard).count(x));
        let hw = ids_of(w.p(s).hand).count(x);
        let hv = ids_of(v.p(s).hand).count(x);
        let dw = ids_of(w.deck).count(x);
        let dv = ids_of(v.deck).count(x);
        assert(ids_of(w.p(s).hand).add(ids_of(w.deck)).count(x) == hw + dw);
        assert(ids_of(v.p(s).hand).add(ids_of(v.deck)).count(x) == hv + dv);
        assert(hw + dw == hv + dv);
        if s == 0 {
            assert(w.p1 == v.p1);
            assert(player_ids(w.p0).count(x) - hw == player_ids(v.p0).count(x) - hv);
        } else {
            assert(w.p0 == v.p0);
            assert(player_ids(w.p1).count(x) - hw == player_ids(v.p1).count(x) - hv);
        }
    }
    assert(zone_ids(w) =~= zone_ids(v));
}

} // verus!
