use vstd::prelude::*;
use crate::game_types::{Card, CardAbility, GamePhase, GameState, GameView, Player, PlayerView, Players, Rank, Suit};
use crate::zones::{ids_of, lemma_hand_and_deck, lemma_ids_owned, lemma_ids_split, lemma_mulligan_ids, lemma_pass, lemma_play, zone_ids};
use rand::seq::{IndexedRandom, SliceRandom};
use uuid::Uuid;
use std::time::{SystemTime, UNIX_EPOCH};

verus! {

/// Number of cards in the catalog: four suits of thirteen, and two jokers.
pub const DECK_SIZE: usize = 54;

/// Number of cards dealt to each player at the start of a match.
pub const HAND_SIZE: usize = 10;

/// The owner marker of a card that lies in the shared draw pile.
pub open spec fn deck_owner() -> Seq<char> {
    "deck"@
}

/// The owner marker that `winner` holds after a drawn match.
pub open spec fn draw_marker() -> Seq<char> {
    "Draw"@
}

// ------------------------------------------------------------------
// Catalog
// ------------------------------------------------------------------

/// The suit of the `i`-th card of the catalog.
pub open spec fn suit_at(i: int) -> Suit {
    if i < 13 {
        Suit::Heart
    } else if i < 26 {
        Suit::Diamond
    } else if i < 39 {
        Suit::Spade
    } else if i < 52 {
        Suit::Club
    } else {
        Suit::Joker
    }
}

/// The rank of the `i`-th card of the catalog: within a suit, 2 to 10, then
/// Jack, Queen, King and Ace.
pub open spec fn rank_at(i: int) -> Rank {
    let j = i % 13;
    if i >= 52 {
        Rank::Joker
    } else if j < 9 {
        Rank::Number((j + 2) as u8)
    } else if j == 9 {
        Rank::Jack
    } else if j == 10 {
        Rank::Queen
    } else if j == 11 {
        Rank::King
    } else {
        Rank::Ace
    }
}

/// The base power that a card of rank `r` is created with.
pub open spec fn power_of_rank(r: Rank) -> u8 {
    match r {
        Rank::Number(n) => n,
        Rank::Jack => 10,
        Rank::Queen => 5,
        Rank::King => 15,
        Rank::Ace => 0,
        Rank::Joker => 0,
    }
}

/// The ability that a card of rank `r` is created with.
pub open spec fn ability_of_rank(r: Rank) -> CardAbility {
    match r {
        Rank::Number(n) => if n == 2 { CardAbility::IronGuard } else { CardAbility::Plain },
        Rank::Jack => CardAbility::Intel,
        Rank::Queen => CardAbility::Medic,
        Rank::King => CardAbility::Hero,
        Rank::Ace => CardAbility::Burn,
        Rank::Joker => CardAbility::Decoy,
    }
}

/// `c` is the `i`-th card of a fresh catalog, whatever its identifier.
pub open spec fn is_catalog_card(c: Card, i: int) -> bool {
    &&& c.suit == suit_at(i)
    &&& c.rank == rank_at(i)
    &&& c.base_power == power_of_rank(rank_at(i))
    &&& c.current_power == c.base_power
    &&& c.ability == ability_of_rank(rank_at(i))
    &&& c.owner_id@ == deck_owner()
}

/// Relies on uuid's Uuid::new_v4 and its Display: a fresh random identifier.
#[verifier::external_body]
fn new_card_id() -> (r: String) {
    Uuid::new_v4().to_string()
}

fn catalog_card(i: usize) -> (c: Card)
    requires
        i < DECK_SIZE,
    ensures
        is_catalog_card(c, i as int),
{
    let j: usize = i % 13;
    let suit = if i < 13 {
        Suit::Heart
    } else if i < 26 {
        Suit::Diamond
    } else if i < 39 {
        Suit::Spade
    } else if i < 52 {
        Suit::Club
    } else {
        Suit::Joker
    };
    let (rank, power, ability) = if i >= 52 {
        (Rank::Joker, 0u8, CardAbility::Decoy)
    } else if j < 9 {
        let n: u8 = (j + 2) as u8;
        (Rank::Number(n), n, if n == 2 { CardAbility::IronGuard } else { CardAbility::Plain })
    } else if j == 9 {
        (Rank::Jack, 10u8, CardAbility::Intel)
    } else if j == 10 {
        (Rank::Queen, 5u8, CardAbility::Medic)
    } else if j == 11 {
        (Rank::King, 15u8, CardAbility::Hero)
    } else {
        (Rank::Ace, 0u8, CardAbility::Burn)
    };
    proof {
        reveal_strlit("deck");
    }
    Card {
        id: new_card_id(),
        suit,
        rank,
        base_power: power,
        current_power: power,
        ability,
        owner_id: "deck".to_owned(),
    }
}

/// Builds the 54-card catalog in suit order, every card in the draw pile.
pub fn create_deck() -> (deck: Vec<Card>)
    ensures
        deck@.len() == DECK_SIZE,
        forall|i: int| 0 <= i < DECK_SIZE ==> is_catalog_card(#[trigger] deck@[i], i),
{
    let mut deck: Vec<Card> = Vec::new();
    let mut i: usize = 0;
    while i < DECK_SIZE
        invariant
            i <= DECK_SIZE,
            deck@.len() == i,
            forall|k: int| 0 <= k < i ==> is_catalog_card(#[trigger] deck@[k], k),
        decreases DECK_SIZE - i,
    {
        deck.push(catalog_card(i));
        i += 1;
    }
    deck
}

// ------------------------------------------------------------------
// Zones
// ------------------------------------------------------------------

/// An upper bound on the cards that a match holds, so that a score fits in `u32`.
pub const MAX_CARDS: usize = 16_000_000;

/// `i` is the first position of a card with identifier `id` in `s`.
pub open spec fn is_first(s: Seq<Card>, id: Seq<char>, i: int) -> bool {
    &&& 0 <= i < s.len()
    &&& s[i].id@ == id
    &&& forall|j: int| 0 <= j < i ==> s[j].id@ != id
}

/// The first position of a card with identifier `id` in `s`, or -1.
pub open spec fn index_of(s: Seq<Card>, id: Seq<char>) -> int {
    if exists|i: int| is_first(s, id, i) {
        choose|i: int| is_first(s, id, i)
    } else {
        -1
    }
}

/// `s` holds a card with identifier `id`.
pub open spec fn holds_id(s: Seq<Card>, id: Seq<char>) -> bool {
    exists|i: int| 0 <= i < s.len() && s[i].id@ == id
}

/// The first position of an identifier, where `s` holds it, is a position
/// of a card with that identifier, and -1 stands for its absence.
pub proof fn lemma_index_of(s: Seq<Card>, id: Seq<char>)
    ensures
        holds_id(s, id) <==> index_of(s, id) >= 0,
        index_of(s, id) >= 0 ==> is_first(s, id, index_of(s, id)),
        !holds_id(s, id) ==> index_of(s, id) == -1,
{
    if holds_id(s, id) {
        let k = choose|k: int| 0 <= k < s.len() && s[k].id@ == id;
        lemma_first_exists(s, id, k);
    }
}

proof fn lemma_first_exists(s: Seq<Card>, id: Seq<char>, k: int)
    requires
        0 <= k < s.len(),
        s[k].id@ == id,
    ensures
        exists|i: int| is_first(s, id, i),
    decreases k,
{
    if exists|j: int| 0 <= j < k && s[j].id@ == id {
        let j = choose|j: int| 0 <= j < k && s[j].id@ == id;
        lemma_first_exists(s, id, j);
    } else {
        assert(is_first(s, id, k));
    }
}

/// A card equal to `c`, field by field.
fn copy_card(c: &Card) -> (r: Card)
    ensures
        r == *c,
{
    Card {
        id: c.id.clone(),
        suit: c.suit,
        rank: c.rank,
        base_power: c.base_power,
        current_power: c.current_power,
        ability: c.ability,
        owner_id: c.owner_id.clone(),
    }
}

/// The position of the first card with identifier `id`, if any.
fn find_card(cards: &Vec<Card>, id: &String) -> (r: Option<usize>)
    ensures
        match r {
            Some(i) => i as int == index_of(cards@, id@) && is_first(cards@, id@, i as int),
            None => index_of(cards@, id@) == -1 && !holds_id(cards@, id@),
        },
{
    let mut i: usize = 0;
    while i < cards.len()
        invariant
            i <= cards@.len(),
            forall|j: int| 0 <= j < i ==> cards@[j].id@ != id@,
        decreases cards@.len() - i,
    {
        if cards[i].id == *id {
            proof {
                lemma_index_of(cards@, id@);
                assert(is_first(cards@, id@, i as int));
                let k = index_of(cards@, id@);
                assert(!(k < i) && !(i < k));
            }
            return Some(i);
        }
        i += 1;
    }
    proof {
        lemma_index_of(cards@, id@);
    }
    None
}

/// `c` with its controller set to `o`.
pub open spec fn owned(c: Card, o: String) -> Card {
    Card { owner_id: o, ..c }
}

/// Every card of `s` with its controller set to `o`.
pub open spec fn owned_all(s: Seq<Card>, o: String) -> Seq<Card> {
    s.map_values(|c: Card| owned(c, o))
}

/// How many cards a draw of `n` takes from a pile of `len` cards.
pub open spec fn draw_count(n: int, len: int) -> int {
    if n < len { n } else { len }
}

/// Moves up to `n` cards from the front of `deck` to the back of `hand`,
/// controlled by `owner`; a short pile gives what it has.
fn draw_cards(deck: &mut Vec<Card>, hand: &mut Vec<Card>, n: usize, owner: &String)
    ensures
        final(deck)@ == old(deck)@.subrange(draw_count(n as int, old(deck)@.len() as int), old(deck)@.len() as int),
        final(hand)@ == old(hand)@ + owned_all(old(deck)@.subrange(0, draw_count(n as int, old(deck)@.len() as int)), *owner),
{
    let ghost d0 = old(deck)@;
    let ghost h0 = old(hand)@;
    let mut k: usize = 0;
    while k < n && deck.len() > 0
        invariant
            k <= n,
            k <= d0.len(),
            deck@ == d0.subrange(k as int, d0.len() as int),
            hand@ == h0 + owned_all(d0.subrange(0, k as int), *owner),
        decreases n - k,
    {
        let mut c = deck.remove(0);
        c.owner_id = owner.clone();
        hand.push(c);
        proof {
            assert(d0.subrange(0, k + 1) =~= d0.subrange(0, k as int).push(d0[k as int]));
            assert(owned_all(d0.subrange(0, k + 1), *owner) =~= owned_all(d0.subrange(0, k as int), *owner).push(owned(d0[k as int], *owner)));
            assert(deck@ =~= d0.subrange(k + 1, d0.len() as int));
        }
        k += 1;
        assert(hand@ =~= h0 + owned_all(d0.subrange(0, k as int), *owner));
    }
}

// ------------------------------------------------------------------
// Scoring
// ------------------------------------------------------------------

/// How many bonding cards `b` holds.
pub open spec fn bond_count(b: Seq<Card>) -> nat
    decreases b.len(),
{
    if b.len() == 0 {
        0
    } else {
        bond_count(b.drop_last()) + if b.last().ability == CardAbility::IronGuard { 1nat } else { 0nat }
    }
}

/// The power of each bonding card on a board that holds `n` of them.
pub open spec fn bonded_power(n: nat) -> u8 {
    if n >= 2 { 6 } else { 2 }
}

/// `c` after the bonding rule, on a board that holds `n` bonding cards.
pub open spec fn rescore_card(c: Card, n: nat) -> Card {
    if c.ability == CardAbility::IronGuard {
        Card { current_power: bonded_power(n), ..c }
    } else {
        c
    }
}

/// The board `b` after the bonding rule.
pub open spec fn rescored(b: Seq<Card>) -> Seq<Card> {
    b.map_values(|c: Card| rescore_card(c, bond_count(b)))
}

/// The sum of the current power of the cards of `b`.
pub open spec fn board_score(b: Seq<Card>) -> int
    decreases b.len(),
{
    if b.len() == 0 {
        0
    } else {
        board_score(b.drop_last()) + b.last().current_power
    }
}

/// The player after the scoring pass: bonding applied, score summed.
pub open spec fn rescore_view(p: PlayerView) -> PlayerView {
    PlayerView { board: rescored(p.board), score: board_score(rescored(p.board)) as u32, ..p }
}

/// A board's score is at most 255 for each of its cards.
pub proof fn lemma_score_bound(b: Seq<Card>)
    ensures
        0 <= board_score(b) <= 255 * b.len(),
    decreases b.len(),
{
    if b.len() > 0 {
        lemma_score_bound(b.drop_last());
    }
}

/// Applies the bonding rule to the player's board and recomputes the score.
fn rescore_player(p: &mut Player)
    requires
        old(p).board@.len() <= MAX_CARDS,
    ensures
        final(p)@ == rescore_view(old(p)@),
        board_score(rescored(old(p).board@)) <= u32::MAX,
{
    let ghost b0 = p.board@;
    let mut n: usize = 0;
    let mut i: usize = 0;
    while i < p.board.len()
        invariant
            p.board@ == b0,
            i <= b0.len(),
            n == bond_count(b0.subrange(0, i as int)),
            n <= i,
        decreases b0.len() - i,
    {
        assert(b0.subrange(0, i + 1).drop_last() =~= b0.subrange(0, i as int));
        if p.board[i].ability == CardAbility::IronGuard {
            n += 1;
        }
        i += 1;
    }
    assert(b0.subrange(0, b0.len() as int) =~= b0);
    let power: u8 = if n >= 2 { 6 } else { 2 };
    let ghost target = rescored(b0);
    i = 0;
    while i < p.board.len()
        invariant
            n == bond_count(b0),
            power == bonded_power(n as nat),
            target == rescored(b0),
            i <= b0.len(),
            p.board@.len() == b0.len(),
            forall|k: int| 0 <= k < i ==> p.board@[k] == target[k],
            forall|k: int| i <= k < b0.len() ==> p.board@[k] == b0[k],
            p.id == old(p).id,
            p.hand == old(p).hand,
            p.discard_pile == old(p).discard_pile,
            p.rounds_won == old(p).rounds_won,
            p.passed == old(p).passed,
        decreases b0.len() - i,
    {
        if p.board[i].ability == CardAbility::IronGuard {
            let mut c = copy_card(&p.board[i]);
            c.current_power = power;
            p.board.set(i, c);
        }
        i += 1;
    }
    assert(p.board@ =~= target);
    proof {
        lemma_score_bound(target);
    }
    let mut sum: u32 = 0;
    i = 0;
    while i < p.board.len()
        invariant
            p.board@ == target,
            i <= target.len(),
            target.len() <= MAX_CARDS,
            sum == board_score(target.subrange(0, i as int)),
        decreases target.len() - i,
    {
        assert(target.subrange(0, i + 1).drop_last() =~= target.subrange(0, i as int));
        proof {
            lemma_score_bound(target.subrange(0, i + 1));
        }
        sum = sum + p.board[i].current_power as u32;
        i += 1;
    }
    assert(target.subrange(0, target.len() as int) =~= target);
    p.current_score = sum;
}

/// Runs the scoring pass for both players.
fn update_scores(game: &mut GameState)
    requires
        old(game).players.0.board@.len() <= MAX_CARDS,
        old(game).players.1.board@.len() <= MAX_CARDS,
    ensures
        final(game)@ == (GameView { p0: rescore_view(old(game)@.p0), p1: rescore_view(old(game)@.p1), ..old(game)@ }),
        final(game).last_update == old(game).last_update,
{
    rescore_player(&mut game.players.0);
    rescore_player(&mut game.players.1);
}

// ------------------------------------------------------------------
// Area-destroy
// ------------------------------------------------------------------

/// The highest current power among the non-immune cards of `b`, or 0.
pub open spec fn eligible_max(b: Seq<Card>) -> u8
    decreases b.len(),
{
    if b.len() == 0 {
        0
    } else {
        let m = eligible_max(b.drop_last());
        let c = b.last();
        if c.ability != CardAbility::Hero && c.current_power > m { c.current_power } else { m }
    }
}

/// The power that area-destroy strikes: the highest among the non-immune
/// cards of both boards, or 0 where there is none.
pub open spec fn scorch_power(v: GameView) -> u8 {
    let a = eligible_max(v.p0.board);
    let b = eligible_max(v.p1.board);
    if a >= b { a } else { b }
}

/// Area-destroy at power `m` removes `c`.
pub open spec fn doomed(c: Card, m: u8) -> bool {
    c.ability != CardAbility::Hero && c.current_power == m
}

/// The cards of `b` that area-destroy at power `m` leaves, in order.
pub open spec fn survivors(b: Seq<Card>, m: u8) -> Seq<Card>
    decreases b.len(),
{
    if b.len() == 0 {
        b
    } else if doomed(b.last(), m) {
        survivors(b.drop_last(), m)
    } else {
        survivors(b.drop_last(), m).push(b.last())
    }
}

/// The cards of `b` that area-destroy at power `m` removes, in order.
pub open spec fn casualties(b: Seq<Card>, m: u8) -> Seq<Card>
    decreases b.len(),
{
    if b.len() == 0 {
        b
    } else if doomed(b.last(), m) {
        casualties(b.drop_last(), m).push(b.last())
    } else {
        casualties(b.drop_last(), m)
    }
}

/// The player after area-destroy at power `m`.
pub open spec fn scorch_player(p: PlayerView, m: u8) -> PlayerView {
    PlayerView { board: survivors(p.board, m), discard: p.discard + casualties(p.board, m), ..p }
}

/// The match after area-destroy: the struck cards of each board go to
/// their own player's discard pile.
pub open spec fn scorched(v: GameView) -> GameView {
    GameView { p0: scorch_player(v.p0, scorch_power(v)), p1: scorch_player(v.p1, scorch_power(v)), ..v }
}

fn board_max(b: &Vec<Card>) -> (m: u8)
    ensures
        m == eligible_max(b@),
{
    let mut m: u8 = 0;
    let mut i: usize = 0;
    while i < b.len()
        invariant
            i <= b@.len(),
            m == eligible_max(b@.subrange(0, i as int)),
        decreases b@.len() - i,
    {
        assert(b@.subrange(0, i + 1).drop_last() =~= b@.subrange(0, i as int));
        if b[i].ability != CardAbility::Hero && b[i].current_power > m {
            m = b[i].current_power;
        }
        i += 1;
    }
    assert(b@.subrange(0, b@.len() as int) =~= b@);
    m
}

fn scorch_board(p: &mut Player, m: u8)
    ensures
        final(p)@ == scorch_player(old(p)@, m),
{
    let mut rest: Vec<Card> = Vec::new();
    std::mem::swap(&mut rest, &mut p.board);
    let ghost b0 = rest@;
    let ghost d0 = p.discard_pile@;
    let mut i: usize = 0;
    while i < rest.len()
        invariant
            rest@ == b0,
            i <= b0.len(),
            p.board@ == survivors(b0.subrange(0, i as int), m),
            p.discard_pile@ == d0 + casualties(b0.subrange(0, i as int), m),
            p.id == old(p).id,
            p.hand == old(p).hand,
            p.current_score == old(p).current_score,
            p.rounds_won == old(p).rounds_won,
            p.passed == old(p).passed,
            d0 == old(p).discard_pile@,
            b0 == old(p).board@,
        decreases b0.len() - i,
    {
        assert(b0.subrange(0, i + 1).drop_last() =~= b0.subrange(0, i as int));
        let c = copy_card(&rest[i]);
        if c.ability != CardAbility::Hero && c.current_power == m {
            p.discard_pile.push(c);
        } else {
            p.board.push(c);
        }
        i += 1;
        assert(p.discard_pile@ =~= d0 + casualties(b0.subrange(0, i as int), m));
    }
    assert(b0.subrange(0, b0.len() as int) =~= b0);
}

/// Area-destroy: every non-immune card on either board whose current power
/// equals the highest such power goes to its player's discard pile.
fn trigger_scorch(game: &mut GameState)
    ensures
        final(game)@ == scorched(old(game)@),
        final(game).last_update == old(game).last_update,
{
    let a = board_max(&game.players.0.board);
    let b = board_max(&game.players.1.board);
    let m = if a >= b { a } else { b };
    scorch_board(&mut game.players.0, m);
    scorch_board(&mut game.players.1, m);
}

// ------------------------------------------------------------------
// Rounds and turns
// ------------------------------------------------------------------

/// `r` is an error with message `m`.
pub open spec fn fails_with(r: Result<(), String>, m: Seq<char>) -> bool {
    r matches Err(e) && e@ == m
}

/// The slot (0 or 1) of the player with identifier `pid`, or -1.
pub open spec fn slot_of(v: GameView, pid: Seq<char>) -> int {
    if v.p0.id == pid {
        0
    } else if v.p1.id == pid {
        1
    } else {
        -1
    }
}

/// The player at the start of a new round: board cleared to the discard
/// pile, score reset, not passed.
pub open spec fn next_round(p: PlayerView) -> PlayerView {
    PlayerView { board: Seq::empty(), discard: p.discard + p.board, score: 0, passed: false, ..p }
}

/// The rounds won by the player in slot `s` once the current round is scored:
/// the higher score wins it, and a tie gives it to both.
pub open spec fn wins_after_round(v: GameView, s: int) -> int {
    let mine = v.p(s).score;
    let theirs = v.p(1 - s).score;
    v.p(s).rounds_won + if mine >= theirs { 1int } else { 0int }
}

/// The match once both players have passed: the round is scored, and the
/// match ends, or the next round begins.
pub open spec fn round_result(v: GameView) -> GameView {
    let w0 = wins_after_round(v, 0);
    let w1 = wins_after_round(v, 1);
    let p0 = PlayerView { rounds_won: w0 as u8, ..v.p0 };
    let p1 = PlayerView { rounds_won: w1 as u8, ..v.p1 };
    if w0 >= 2 && w1 >= 2 {
        GameView { p0, p1, phase: GamePhase::GameEnd, winner: Some(draw_marker()), ..v }
    } else if w0 >= 2 {
        GameView { p0, p1, phase: GamePhase::GameEnd, winner: Some(v.p0.id), ..v }
    } else if w1 >= 2 {
        GameView { p0, p1, phase: GamePhase::GameEnd, winner: Some(v.p1.id), ..v }
    } else {
        GameView {
            p0: next_round(p0),
            p1: next_round(p1),
            phase: GamePhase::Playing,
            round: (v.round + 1) as u32,
            turn: if v.p0.score > v.p1.score {
                v.p0.id
            } else if v.p1.score > v.p0.score {
                v.p1.id
            } else {
                v.turn
            },
            ..v
        }
    }
}

/// Relies on std's SystemTime::now: the clock's seconds since the Unix
/// epoch, or 0 for a clock set before it.
#[verifier::external_body]
fn get_timestamp() -> (r: u64) {
    SystemTime::now().duration_since(UNIX_EPOCH).map_or(0, |d| d.as_secs())
}

/// Advances the time stamp of the last change; it never goes back.
fn touch(game: &mut GameState)
    ensures
        final(game)@ == old(game)@,
        final(game).last_update >= old(game).last_update,
{
    let now = get_timestamp();
    if now > game.last_update {
        game.last_update = now;
    }
}

fn award_round(p: &mut Player)
    requires
        old(p).rounds_won < 255,
    ensures
        final(p)@ == (PlayerView { rounds_won: (old(p).rounds_won + 1) as u8, ..old(p)@ }),
{
    p.rounds_won = p.rounds_won + 1;
}

fn clear_board(p: &mut Player)
    ensures
        final(p)@ == next_round(old(p)@),
{
    p.discard_pile.append(&mut p.board);
    p.current_score = 0;
    p.passed = false;
    assert(p.board@ =~= Seq::<Card>::empty());
}

/// Scores the round that both players have passed, then ends the match or
/// starts the next round.
fn resolve_round(game: &mut GameState)
    requires
        old(game).players.0.rounds_won < 255,
        old(game).players.1.rounds_won < 255,
        old(game).round_count < u32::MAX,
    ensures
        final(game)@ == round_result(old(game)@),
        final(game).last_update == old(game).last_update,
{
    let s0 = game.players.0.current_score;
    let s1 = game.players.1.current_score;
    if s0 >= s1 {
        award_round(&mut game.players.0);
    }
    if s1 >= s0 {
        award_round(&mut game.players.1);
    }
    let w0 = game.players.0.rounds_won;
    let w1 = game.players.1.rounds_won;
    proof {
        reveal_strlit("Draw");
    }
    if w0 >= 2 && w1 >= 2 {
        game.winner = Some("Draw".to_owned());
        game.phase = GamePhase::GameEnd;
        assert(game@ =~= round_result(old(game)@));
        return;
    } else if w0 >= 2 {
        game.winner = Some(game.players.0.id.clone());
        game.phase = GamePhase::GameEnd;
        assert(game@ =~= round_result(old(game)@));
        return;
    } else if w1 >= 2 {
        game.winner = Some(game.players.1.id.clone());
        game.phase = GamePhase::GameEnd;
        assert(game@ =~= round_result(old(game)@));
        return;
    }
    clear_board(&mut game.players.0);
    clear_board(&mut game.players.1);
    game.round_count = game.round_count + 1;
    game.phase = GamePhase::Playing;
    if s0 > s1 {
        game.current_turn = game.players.0.id.clone();
    } else if s1 > s0 {
        game.current_turn = game.players.1.id.clone();
    }
    assert(game@ =~= round_result(old(game)@));
}

/// The match after the player in slot `s` passes.
pub open spec fn pass_view(v: GameView, s: int) -> GameView {
    let v1 = v.with_p(s, PlayerView { passed: true, ..v.p(s) });
    if v.p(1 - s).passed {
        round_result(v1)
    } else {
        GameView { turn: v.p(1 - s).id, ..v1 }
    }
}

/// The player `player_id` passes for the rest of the round. Once both have
/// passed the round is scored; otherwise the opponent takes the turn.
pub fn pass_turn(game: &mut GameState, player_id: &String) -> (r: Result<(), String>)
    requires
        old(game).wf(),
        old(game).players.0.rounds_won < 255,
        old(game).players.1.rounds_won < 255,
        old(game).round_count < u32::MAX,
    ensures
        old(game).phase != GamePhase::Playing ==> fails_with(r, "Not in Playing phase"@),
        old(game).phase == GamePhase::Playing && old(game).current_turn@ != player_id@
            ==> fails_with(r, "Not your turn"@),
        old(game).phase == GamePhase::Playing && old(game).current_turn@ == player_id@
            && slot_of(old(game)@, player_id@) < 0 ==> fails_with(r, "Player not found"@),
        r is Err ==> *final(game) == *old(game),
        r is Ok <==> (old(game).phase == GamePhase::Playing && old(game).current_turn@ == player_id@
            && slot_of(old(game)@, player_id@) >= 0),
        r is Ok ==> final(game)@ == pass_view(old(game)@, slot_of(old(game)@, player_id@)),
        zone_ids(final(game)@) == zone_ids(old(game)@),
        final(game).last_update >= old(game).last_update,
        final(game).wf(),
{
    proof {
        reveal_strlit("Not in Playing phase");
        reveal_strlit("Not your turn");
        reveal_strlit("Player not found");
    }
    if game.phase != GamePhase::Playing {
        return Err("Not in Playing phase".to_owned());
    }
    if game.current_turn != *player_id {
        return Err("Not your turn".to_owned());
    }
    let ghost v = game@;
    let first = if game.players.0.id == *player_id {
        true
    } else if game.players.1.id == *player_id {
        false
    } else {
        return Err("Player not found".to_owned());
    };
    let opponent_passed = if first {
        game.players.0.passed = true;
        game.players.1.passed
    } else {
        game.players.1.passed = true;
        game.players.0.passed
    };
    let ghost s: int = if first { 0 } else { 1 };
    assert(game@ =~= v.with_p(s, PlayerView { passed: true, ..v.p(s) }));
    proof {
        lemma_pass(v, s);
    }
    if opponent_passed {
        resolve_round(game);
    } else {
        game.current_turn = if first { game.players.1.id.clone() } else { game.players.0.id.clone() };
        assert(game@ =~= pass_view(v, s));
    }
    touch(game);
    Ok(())
}

// ------------------------------------------------------------------
// Playing a card
// ------------------------------------------------------------------

/// The slot that `first` names: 0 for the first player, 1 for the second.
pub open spec fn sl(first: bool) -> int {
    if first { 0 } else { 1 }
}

/// The view of an optional identifier.
pub open spec fn opt_view(t: Option<String>) -> Option<Seq<char>> {
    match t {
        Some(s) => Some(s@),
        None => None,
    }
}

/// The match with `c` added at the end of slot `s`'s board.
pub open spec fn put_board(v: GameView, s: int, c: Card) -> GameView {
    v.with_p(s, PlayerView { board: v.p(s).board.push(c), ..v.p(s) })
}

/// The match with `c` added at the end of slot `s`'s hand.
pub open spec fn put_hand(v: GameView, s: int, c: Card) -> GameView {
    v.with_p(s, PlayerView { hand: v.p(s).hand.push(c), ..v.p(s) })
}

/// The match with the `i`-th card of slot `s`'s hand taken out.
pub open spec fn cut_hand(v: GameView, s: int, i: int) -> GameView {
    v.with_p(s, PlayerView { hand: v.p(s).hand.remove(i), ..v.p(s) })
}

/// The match with the `i`-th card of slot `s`'s board taken out.
pub open spec fn cut_board(v: GameView, s: int, i: int) -> GameView {
    v.with_p(s, PlayerView { board: v.p(s).board.remove(i), ..v.p(s) })
}

/// The match with the `i`-th card of slot `s`'s discard pile taken out.
pub open spec fn cut_discard(v: GameView, s: int, i: int) -> GameView {
    v.with_p(s, PlayerView { discard: v.p(s).discard.remove(i), ..v.p(s) })
}

/// The match after slot `s` draws up to `n` cards from the front of the pile.
pub open spec fn draw_view(v: GameView, s: int, n: int, o: String) -> GameView {
    let k = draw_count(n, v.deck.len() as int);
    GameView {
        deck: v.deck.subrange(k, v.deck.len() as int),
        ..v.with_p(s, PlayerView { hand: v.p(s).hand + owned_all(v.deck.subrange(0, k), o), ..v.p(s) })
    }
}

/// The match after the scoring pass on both boards.
pub open spec fn rescore_all(v: GameView) -> GameView {
    GameView { p0: rescore_view(v.p0), p1: rescore_view(v.p1), ..v }
}

/// Cards drawn by a spy.
pub const SPY_DRAW: usize = 2;

/// The match after slot `s` has a spy `c` land on the opponent's board,
/// controlled by `oid`, and draws for `pid`.
pub open spec fn spy_view(v: GameView, s: int, c: Card, pid: String, oid: String) -> GameView {
    draw_view(put_board(v, 1 - s, owned(c, oid)), s, SPY_DRAW as int, pid)
}

/// Slot `s` plays a revive card with target `target`, and the target lies
/// in its discard pile and is immune: the revival is refused.
pub open spec fn revive_blocked(v: GameView, s: int, c: Card, target: Option<Seq<char>>) -> bool {
    &&& c.ability == CardAbility::Medic
    &&& target is Some
    &&& holds_id(v.p(s).discard, target->0)
    &&& v.p(s).discard[index_of(v.p(s).discard, target->0)].ability == CardAbility::Hero
}

/// The match after the revive sub-action of slot `s` on `target`, once the
/// revive card itself stands on the board.
pub open spec fn revive_view(v: GameView, s: int, target: Option<Seq<char>>, pid: String, oid: String) -> GameView {
    if target is Some && holds_id(v.p(s).discard, target->0) {
        let j = index_of(v.p(s).discard, target->0);
        let r = v.p(s).discard[j];
        let v1 = cut_discard(v, s, j);
        if r.ability == CardAbility::Hero {
            v
        } else if r.ability == CardAbility::Intel {
            spy_view(v1, s, r, pid, oid)
        } else if r.ability == CardAbility::Burn {
            scorched(put_board(v1, s, owned(r, pid)))
        } else {
            put_board(v1, s, owned(r, pid))
        }
    } else {
        v
    }
}

/// The match after slot `s`'s card `c`, already out of the hand, takes
/// effect by its ability.
pub open spec fn ability_view(v: GameView, s: int, c: Card, target: Option<Seq<char>>, pid: String, oid: String) -> GameView {
    match c.ability {
        CardAbility::Intel => spy_view(v, s, c, pid, oid),
        CardAbility::Medic => revive_view(put_board(v, s, owned(c, pid)), s, target, pid, oid),
        CardAbility::Decoy => {
            let j = index_of(v.p(s).board, target->0);
            let t = v.p(s).board[j];
            put_board(put_hand(cut_board(v, s, j), s, owned(t, pid)), s, owned(c, pid))
        },
        CardAbility::Burn => scorched(put_board(v, s, owned(c, pid))),
        _ => put_board(v, s, owned(c, pid)),
    }
}

/// The error that `play_card` reports before it changes anything, if any.
pub open spec fn play_check(v: GameView, pid: Seq<char>, cid: Seq<char>, target: Option<Seq<char>>) -> Option<Seq<char>> {
    let s = slot_of(v, pid);
    if v.phase != GamePhase::Playing {
        Some("Not in Playing phase"@)
    } else if v.turn != pid {
        Some("Not your turn"@)
    } else if s < 0 {
        Some("Player not found"@)
    } else if !holds_id(v.p(s).hand, cid) {
        Some("Card not in hand"@)
    } else if v.p(s).hand[index_of(v.p(s).hand, cid)].ability != CardAbility::Decoy {
        None
    } else if target is None {
        Some("Decoy requires a target"@)
    } else if !holds_id(v.p(s).board, target->0) {
        Some("Decoy target not found"@)
    } else if v.p(s).board[index_of(v.p(s).board, target->0)].ability == CardAbility::Hero {
        Some("Cannot Decoy Hero"@)
    } else {
        None
    }
}

/// The match after slot `s` plays the `i`-th card of its hand, where
/// `play_check` finds nothing to refuse: the ability takes effect, both
/// boards are scored, and the turn passes to the opponent unless the
/// opponent has passed or the revival was refused.
pub open spec fn play_view(v: GameView, s: int, i: int, target: Option<Seq<char>>, pid: String, oid: String) -> GameView {
    let c = v.p(s).hand[i];
    let v1 = rescore_all(ability_view(cut_hand(v, s, i), s, c, target, pid, oid));
    if revive_blocked(v, s, c, target) || v.p(1 - s).passed {
        v1
    } else {
        GameView { turn: v.p(1 - s).id, ..v1 }
    }
}

fn push_board(game: &mut GameState, first: bool, c: Card)
    ensures
        final(game)@ == put_board(old(game)@, sl(first), c),
        final(game).last_update == old(game).last_update,
{
    if first {
        game.players.0.board.push(c);
    } else {
        game.players.1.board.push(c);
    }
    assert(game@ =~= put_board(old(game)@, sl(first), c));
}

fn push_hand(game: &mut GameState, first: bool, c: Card)
    ensures
        final(game)@ == put_hand(old(game)@, sl(first), c),
        final(game).last_update == old(game).last_update,
{
    if first {
        game.players.0.hand.push(c);
    } else {
        game.players.1.hand.push(c);
    }
    assert(game@ =~= put_hand(old(game)@, sl(first), c));
}

fn take_hand(game: &mut GameState, first: bool, i: usize) -> (c: Card)
    requires
        i < old(game)@.p(sl(first)).hand.len(),
    ensures
        c == old(game)@.p(sl(first)).hand[i as int],
        final(game)@ == cut_hand(old(game)@, sl(first), i as int),
        final(game).last_update == old(game).last_update,
{
    let c = if first { game.players.0.hand.remove(i) } else { game.players.1.hand.remove(i) };
    assert(game@ =~= cut_hand(old(game)@, sl(first), i as int));
    c
}

fn take_board(game: &mut GameState, first: bool, i: usize) -> (c: Card)
    requires
        i < old(game)@.p(sl(first)).board.len(),
    ensures
        c == old(game)@.p(sl(first)).board[i as int],
        final(game)@ == cut_board(old(game)@, sl(first), i as int),
        final(game).last_update == old(game).last_update,
{
    let c = if first { game.players.0.board.remove(i) } else { game.players.1.board.remove(i) };
    assert(game@ =~= cut_board(old(game)@, sl(first), i as int));
    c
}

fn take_discard(game: &mut GameState, first: bool, i: usize) -> (c: Card)
    requires
        i < old(game)@.p(sl(first)).discard.len(),
    ensures
        c == old(game)@.p(sl(first)).discard[i as int],
        final(game)@ == cut_discard(old(game)@, sl(first), i as int),
        final(game).last_update == old(game).last_update,
{
    let c = if first { game.players.0.discard_pile.remove(i) } else { game.players.1.discard_pile.remove(i) };
    assert(game@ =~= cut_discard(old(game)@, sl(first), i as int));
    c
}

fn draw_for(game: &mut GameState, first: bool, owner: &String)
    ensures
        final(game)@ == draw_view(old(game)@, sl(first), SPY_DRAW as int, *owner),
        final(game).last_update == old(game).last_update,
{
    if first {
        draw_cards(&mut game.deck, &mut game.players.0.hand, SPY_DRAW, owner);
    } else {
        draw_cards(&mut game.deck, &mut game.players.1.hand, SPY_DRAW, owner);
    }
    assert(game@ =~= draw_view(old(game)@, sl(first), SPY_DRAW as int, *owner));
}

proof fn lemma_survivors_len(b: Seq<Card>, m: u8)
    ensures
        survivors(b, m).len() <= b.len(),
    decreases b.len(),
{
    if b.len() > 0 {
        lemma_survivors_len(b.drop_last(), m);
    }
}

/// There is room on both boards for the cards that one play adds.
pub open spec fn board_room(v: GameView) -> bool {
    &&& v.p0.board.len() + 2 <= MAX_CARDS
    &&& v.p1.board.len() + 2 <= MAX_CARDS
}

/// Area-destroy on a game whose boards fit the scoring bound.
fn scorch_in_room(game: &mut GameState)
    requires
        old(game).players.0.board@.len() <= MAX_CARDS,
        old(game).players.1.board@.len() <= MAX_CARDS,
    ensures
        final(game)@ == scorched(old(game)@),
        final(game).last_update == old(game).last_update,
        final(game).players.0.board@.len() <= MAX_CARDS,
        final(game).players.1.board@.len() <= MAX_CARDS,
{
    proof {
        lemma_survivors_len(old(game)@.p0.board, scorch_power(old(game)@));
        lemma_survivors_len(old(game)@.p1.board, scorch_power(old(game)@));
    }
    trigger_scorch(game);
}

/// The player `player_id` plays the card `card_id` from their hand, with an
/// optional target for revive and bounce cards.
///
/// Where `play_check` names an error, nothing changes. Otherwise the card
/// leaves the hand, takes effect by its ability, both boards are scored and
/// the turn passes on, all as `play_view` states; the one error that comes
/// after the card is played is a refused revival of an immune card.
#[verifier::rlimit(40)]
pub fn play_card(
    game: &mut GameState,
    player_id: &String,
    card_id: &String,
    target_id: Option<String>,
) -> (r: Result<(), String>)
    requires
        old(game).wf(),
        board_room(old(game)@),
    ensures
        play_check(old(game)@, player_id@, card_id@, opt_view(target_id)) matches Some(m)
            ==> fails_with(r, m) && *final(game) == *old(game),
        play_check(old(game)@, player_id@, card_id@, opt_view(target_id)) is None ==> {
            let v = old(game)@;
            let s = slot_of(v, player_id@);
            let i = index_of(v.p(s).hand, card_id@);
            let c = v.p(s).hand[i];
            &&& final(game)@ == play_view(v, s, i, opt_view(target_id), *player_id, old(game).slot(1 - s).id)
            &&& (r is Ok <==> !revive_blocked(v, s, c, opt_view(target_id)))
            &&& (r is Err ==> fails_with(r, "Cannot revive Hero"@))
            &&& final(game).last_update >= old(game).last_update
        },
        zone_ids(final(game)@) == zone_ids(old(game)@),
        final(game).wf(),
{
    proof {
        reveal_strlit("Not in Playing phase");
        reveal_strlit("Not your turn");
        reveal_strlit("Player not found");
        reveal_strlit("Card not in hand");
        reveal_strlit("Decoy requires a target");
        reveal_strlit("Decoy target not found");
        reveal_strlit("Cannot Decoy Hero");
        reveal_strlit("Cannot revive Hero");
    }
    let ghost v = game@;
    let ghost t = opt_view(target_id);
    if game.phase != GamePhase::Playing {
        return Err("Not in Playing phase".to_owned());
    }
    if game.current_turn != *player_id {
        return Err("Not your turn".to_owned());
    }
    let first = if game.players.0.id == *player_id {
        true
    } else if game.players.1.id == *player_id {
        false
    } else {
        return Err("Player not found".to_owned());
    };
    let ghost s = sl(first);
    assert(s == slot_of(v, player_id@));
    let found = if first {
        find_card(&game.players.0.hand, card_id)
    } else {
        find_card(&game.players.1.hand, card_id)
    };
    let i = match found {
        Some(i) => i,
        None => {
            return Err("Card not in hand".to_owned());
        },
    };
    let ability = if first { game.players.0.hand[i].ability } else { game.players.1.hand[i].ability };
    let mut bounce_at: usize = 0;
    if ability == CardAbility::Decoy {
        match &target_id {
            None => {
                return Err("Decoy requires a target".to_owned());
            },
            Some(tid) => {
                let at = if first {
                    find_card(&game.players.0.board, tid)
                } else {
                    find_card(&game.players.1.board, tid)
                };
                match at {
                    None => {
                        return Err("Decoy target not found".to_owned());
                    },
                    Some(j) => {
                        let immune = if first {
                            game.players.0.board[j].ability == CardAbility::Hero
                        } else {
                            game.players.1.board[j].ability == CardAbility::Hero
                        };
                        if immune {
                            return Err("Cannot Decoy Hero".to_owned());
                        }
                        bounce_at = j;
                    },
                }
            },
        }
    }
    assert(play_check(v, player_id@, card_id@, t) is None);
    let opponent_id = if first { game.players.1.id.clone() } else { game.players.0.id.clone() };
    let opponent_passed = if first { game.players.1.passed } else { game.players.0.passed };
    let mut card = take_hand(game, first, i);
    let ghost c = card;
    let ghost v1 = game@;
    let mut blocked = false;
    match ability {
        CardAbility::Intel => {
            card.owner_id = opponent_id.clone();
            push_board(game, !first, card);
            draw_for(game, first, player_id);
            assert(game@ == ability_view(v1, s, c, t, *player_id, opponent_id));
        },
        CardAbility::Medic => {
            card.owner_id = player_id.clone();
            push_board(game, first, card);
            let ghost v2 = game@;
            if let Some(tid) = &target_id {
                let at = if first {
                    find_card(&game.players.0.discard_pile, tid)
                } else {
                    find_card(&game.players.1.discard_pile, tid)
                };
                if let Some(j) = at {
                    let immune = if first {
                        game.players.0.discard_pile[j].ability == CardAbility::Hero
                    } else {
                        game.players.1.discard_pile[j].ability == CardAbility::Hero
                    };
                    if immune {
                        blocked = true;
                    } else {
                        let mut revived = take_discard(game, first, j);
                        let ghost v3 = game@;
                        if revived.ability == CardAbility::Intel {
                            revived.owner_id = opponent_id.clone();
                            push_board(game, !first, revived);
                            draw_for(game, first, player_id);
                        } else if revived.ability == CardAbility::Burn {
                            revived.owner_id = player_id.clone();
                            push_board(game, first, revived);
                            scorch_in_room(game);
                        } else {
                            revived.owner_id = player_id.clone();
                            push_board(game, first, revived);
                        }
                    }
                }
            }
            assert(game@ == revive_view(v2, s, t, *player_id, opponent_id));
            assert(game@ == ability_view(v1, s, c, t, *player_id, opponent_id));
        },
        CardAbility::Decoy => {
            let mut target_card = take_board(game, first, bounce_at);
            target_card.owner_id = player_id.clone();
            push_hand(game, first, target_card);
            card.owner_id = player_id.clone();
            push_board(game, first, card);
            assert(game@ == ability_view(v1, s, c, t, *player_id, opponent_id));
        },
        CardAbility::Burn => {
            card.owner_id = player_id.clone();
            push_board(game, first, card);
            scorch_in_room(game);
            assert(game@ == ability_view(v1, s, c, t, *player_id, opponent_id));
        },
        _ => {
            card.owner_id = player_id.clone();
            push_board(game, first, card);
            assert(game@ == ability_view(v1, s, c, t, *player_id, opponent_id));
        },
    }
    assert(blocked == revive_blocked(v, s, c, t));
    proof {
        lemma_play(v, s, i as int, t, *player_id, opponent_id);
    }
    update_scores(game);
    if blocked {
        touch(game);
        return Err("Cannot revive Hero".to_owned());
    }
    if !opponent_passed {
        game.current_turn = opponent_id;
    }
    touch(game);
    Ok(())
}

// ------------------------------------------------------------------
// Mulligan
// ------------------------------------------------------------------

/// The most cards that a mulligan may replace.
pub const MULLIGAN_MAX: usize = 2;

/// `c` is named by one of `ids`.
pub open spec fn marked(ids: Seq<String>, c: Card) -> bool {
    exists|k: int| 0 <= k < ids.len() && ids[k]@ == c.id@
}

/// The cards of `h` that no identifier of `ids` names, in hand order.
pub open spec fn kept(h: Seq<Card>, ids: Seq<String>) -> Seq<Card>
    decreases h.len(),
{
    if h.len() == 0 {
        h
    } else if marked(ids, h.last()) {
        kept(h.drop_last(), ids)
    } else {
        kept(h.drop_last(), ids).push(h.last())
    }
}

/// The cards of `h` that an identifier of `ids` names, in hand order.
pub open spec fn replaced(h: Seq<Card>, ids: Seq<String>) -> Seq<Card>
    decreases h.len(),
{
    if h.len() == 0 {
        h
    } else if marked(ids, h.last()) {
        replaced(h.drop_last(), ids).push(h.last())
    } else {
        replaced(h.drop_last(), ids)
    }
}

/// Every identifier of `ids` names a card of `h`.
pub open spec fn all_named(h: Seq<Card>, ids: Seq<String>) -> bool {
    forall|k: int| 0 <= k < ids.len() ==> holds_id(h, #[trigger] ids[k]@)
}

/// `a` is `b` with its controller changed to one whose identifier is `o`.
pub open spec fn relabeled(a: Card, b: Card, o: Seq<char>) -> bool {
    a == (Card { owner_id: a.owner_id, ..b }) && a.owner_id@ == o
}

/// The error that `handle_mulligan` reports, if any.
pub open spec fn mulligan_check(v: GameView, pid: Seq<char>, ids: Seq<String>) -> Option<Seq<char>> {
    let s = slot_of(v, pid);
    if v.phase != GamePhase::Mulligan {
        Some("Not in Mulligan phase"@)
    } else if s < 0 {
        Some("Player not found"@)
    } else if ids.len() > MULLIGAN_MAX {
        Some("Cannot replace more than 2 cards"@)
    } else if !all_named(v.p(s).hand, ids) || replaced(v.p(s).hand, ids).len() != ids.len() {
        Some("Invalid card IDs for mulligan"@)
    } else {
        None
    }
}

fn all_in_hand(h: &Vec<Card>, ids: &Vec<String>) -> (r: bool)
    ensures
        r == all_named(h@, ids@),
{
    let mut k: usize = 0;
    while k < ids.len()
        invariant
            k <= ids@.len(),
            forall|q: int| 0 <= q < k ==> holds_id(h@, #[trigger] ids@[q]@),
        decreases ids@.len() - k,
    {
        if find_card(h, &ids[k]).is_none() {
            return false;
        }
        k += 1;
    }
    true
}

fn is_marked(ids: &Vec<String>, id: &String) -> (r: bool)
    ensures
        r == (exists|k: int| 0 <= k < ids@.len() && ids@[k]@ == id@),
{
    let mut k: usize = 0;
    while k < ids.len()
        invariant
            k <= ids@.len(),
            forall|q: int| 0 <= q < k ==> ids@[q]@ != id@,
        decreases ids@.len() - k,
    {
        if ids[k] == *id {
            return true;
        }
        k += 1;
    }
    false
}

/// Splits `h` into the cards that `ids` does not name and those it names,
/// both in hand order.
fn split_hand(h: &Vec<Card>, ids: &Vec<String>) -> (r: (Vec<Card>, Vec<Card>))
    ensures
        r.0@ == kept(h@, ids@),
        r.1@ == replaced(h@, ids@),
{
    let mut keep: Vec<Card> = Vec::new();
    let mut out: Vec<Card> = Vec::new();
    let mut i: usize = 0;
    while i < h.len()
        invariant
            i <= h@.len(),
            keep@ == kept(h@.subrange(0, i as int), ids@),
            out@ == replaced(h@.subrange(0, i as int), ids@),
        decreases h@.len() - i,
    {
        assert(h@.subrange(0, i + 1).drop_last() =~= h@.subrange(0, i as int));
        let c = copy_card(&h[i]);
        if is_marked(ids, &c.id) {
            out.push(c);
        } else {
            keep.push(c);
        }
        i += 1;
    }
    assert(h@.subrange(0, h@.len() as int) =~= h@);
    (keep, out)
}

/// Puts `out` at the back of the pile, each card controlled by the pile.
fn return_to_deck(deck: &mut Vec<Card>, out: Vec<Card>)
    ensures
        final(deck)@.len() == old(deck)@.len() + out@.len(),
        forall|q: int| 0 <= q < old(deck)@.len() ==> final(deck)@[q] == old(deck)@[q],
        forall|q: int| 0 <= q < out@.len()
            ==> relabeled(#[trigger] final(deck)@[old(deck)@.len() + q], out@[q], deck_owner()),
{
    let ghost d0 = deck@;
    let mut i: usize = 0;
    while i < out.len()
        invariant
            i <= out@.len(),
            deck@.len() == d0.len() + i,
            forall|q: int| 0 <= q < d0.len() ==> deck@[q] == d0[q],
            forall|q: int| 0 <= q < i ==> relabeled(#[trigger] deck@[d0.len() + q], out@[q], deck_owner()),
        decreases out@.len() - i,
    {
        let mut c = copy_card(&out[i]);
        proof {
            reveal_strlit("deck");
        }
        c.owner_id = "deck".to_owned();
        deck.push(c);
        i += 1;
    }
}

/// Before the first round, the player `player_id` exchanges up to two cards
/// of their hand, named by `card_ids_to_replace`, for as many from the
/// front of the pile.
///
/// The named cards go, in hand order, to the back of the pile under the
/// pile's marker; the kept cards stay in order, and as many cards as went
/// out are drawn after them. Where an identifier names no card in the hand,
/// or the identifiers do not name exactly as many cards as they are,
/// nothing changes.
pub fn handle_mulligan(game: &mut GameState, player_id: &String, card_ids_to_replace: Vec<String>) -> (r: Result<(), String>)
    requires
        old(game).wf(),
    ensures
        mulligan_check(old(game)@, player_id@, card_ids_to_replace@) matches Some(m)
            ==> fails_with(r, m) && *final(game) == *old(game),
        mulligan_check(old(game)@, player_id@, card_ids_to_replace@) is None ==> {
            let v = old(game)@;
            let s = slot_of(v, player_id@);
            let h = v.p(s).hand;
            let out = replaced(h, card_ids_to_replace@);
            let n = card_ids_to_replace@.len() as int;
            let d = v.deck;
            &&& r is Ok
            &&& final(game)@ == (GameView { deck: final(game)@.deck, ..v.with_p(s, PlayerView {
                    hand: kept(h, card_ids_to_replace@) + owned_all((d + out).subrange(0, n), *player_id),
                    ..v.p(s)
                }) })
            &&& final(game)@.deck.len() == d.len()
            &&& forall|q: int| 0 <= q < d.len() - n ==> final(game)@.deck[q] == d[q + n]
            &&& forall|q: int| d.len() - n <= q < d.len() && q >= 0
                ==> relabeled(#[trigger] final(game)@.deck[q], out[q + n - d.len()], deck_owner())
            &&& final(game).last_update >= old(game).last_update
        },
        zone_ids(final(game)@) == zone_ids(old(game)@),
        final(game).wf(),
{
    proof {
        reveal_strlit("Not in Mulligan phase");
        reveal_strlit("Player not found");
        reveal_strlit("Cannot replace more than 2 cards");
        reveal_strlit("Invalid card IDs for mulligan");
    }
    if game.phase != GamePhase::Mulligan {
        return Err("Not in Mulligan phase".to_owned());
    }
    let first = if game.players.0.id == *player_id {
        true
    } else if game.players.1.id == *player_id {
        false
    } else {
        return Err("Player not found".to_owned());
    };
    if card_ids_to_replace.len() > MULLIGAN_MAX {
        return Err("Cannot replace more than 2 cards".to_owned());
    }
    let found = if first {
        all_in_hand(&game.players.0.hand, &card_ids_to_replace)
    } else {
        all_in_hand(&game.players.1.hand, &card_ids_to_replace)
    };
    if !found {
        return Err("Invalid card IDs for mulligan".to_owned());
    }
    let (keep, out) = if first {
        split_hand(&game.players.0.hand, &card_ids_to_replace)
    } else {
        split_hand(&game.players.1.hand, &card_ids_to_replace)
    };
    if out.len() != card_ids_to_replace.len() {
        return Err("Invalid card IDs for mulligan".to_owned());
    }
    let ghost v = game@;
    let ghost s = sl(first);
    let ghost d = v.deck;
    let ghost o = out@;
    let n = out.len();
    return_to_deck(&mut game.deck, out);
    let ghost d1 = game.deck@;
    if first {
        game.players.0.hand = keep;
        draw_cards(&mut game.deck, &mut game.players.0.hand, n, player_id);
    } else {
        game.players.1.hand = keep;
        draw_cards(&mut game.deck, &mut game.players.1.hand, n, player_id);
    }
    assert(draw_count(n as int, d1.len() as int) == n);
    assert(owned_all(d1.subrange(0, n as int), *player_id) =~= owned_all((d + o).subrange(0, n as int), *player_id)) by {
        assert forall|q: int| 0 <= q < n implies owned(d1[q], *player_id) == owned((d + o)[q], *player_id) by {
            if q >= d.len() {
                assert(relabeled(d1[d.len() + (q - d.len())], o[q - d.len()], deck_owner()));
            }
        }
    }
    assert(game@ =~= (GameView { deck: game@.deck, ..v.with_p(s, PlayerView {
        hand: kept(v.p(s).hand, card_ids_to_replace@) + owned_all((d + o).subrange(0, n as int), *player_id),
        ..v.p(s)
    }) }));
    assert forall|q: int| d.len() - n <= q < d.len() && q >= 0
        implies relabeled(#[trigger] game@.deck[q], o[q + n - d.len()], deck_owner()) by {
        assert(d1[d.len() + (q + n - d.len())] == game@.deck[q]);
    }
    proof {
        assert forall|q: int| 0 <= q < d1.len() implies d1[q].id@ == (d + o)[q].id@ by {
            if q >= d.len() {
                assert(relabeled(d1[d.len() + (q - d.len())], o[q - d.len()], deck_owner()));
            }
        }
        lemma_mulligan_ids(v.p(s).hand, card_ids_to_replace@, d, d1, n as int, *player_id);
        lemma_hand_and_deck(v, game@, s);
    }
    touch(game);
    Ok(())
}

// ------------------------------------------------------------------
// Match setup
// ------------------------------------------------------------------

/// Relies on rand's SliceRandom::shuffle: it permutes the cards in place.
#[verifier::external_body]
fn shuffle_cards(cards: &mut Vec<Card>)
    ensures
        final(cards)@.to_multiset() == old(cards)@.to_multiset(),
{
    cards.shuffle(&mut rand::rng());
}

/// Relies on rand's IndexedRandom::choose: one of the items, and `None`
/// only for an empty slice.
#[verifier::external_body]
fn choose_from(items: &Vec<usize>) -> (r: Option<usize>)
    ensures
        r is None <==> items@.len() == 0,
        r matches Some(x) ==> items@.contains(x),
{
    items.choose(&mut rand::rng()).copied()
}

/// `d` is a fresh catalog in some order.
pub open spec fn is_shuffled_catalog(d: Seq<Card>) -> bool {
    exists|c: Seq<Card>|
        #![trigger c.to_multiset()]
        c.len() == DECK_SIZE && (forall|i: int| 0 <= i < DECK_SIZE ==> is_catalog_card(#[trigger] c[i], i))
            && c.to_multiset() == d.to_multiset()
}

/// `ids` names exactly two distinct players.
pub open spec fn two_players(ids: Seq<String>) -> bool {
    ids.len() == 2 && ids[0]@ != ids[1]@
}

/// A player at the start of the match.
pub open spec fn fresh_player(id: Seq<char>, hand: Seq<Card>) -> PlayerView {
    PlayerView { id, hand, board: Seq::empty(), discard: Seq::empty(), score: 0, rounds_won: 0, passed: false }
}

/// The match that dealing from the pile `d` gives: ten cards each from the
/// front, the first player first, the rest left as the pile, and the player
/// in slot `starter` to move first.
pub open spec fn dealt(room: Seq<char>, ids: Seq<String>, d: Seq<Card>, starter: int) -> GameView {
    let n = HAND_SIZE as int;
    GameView {
        room,
        phase: GamePhase::Mulligan,
        p0: fresh_player(ids[0]@, owned_all(d.subrange(0, n), ids[0])),
        p1: fresh_player(ids[1]@, owned_all(d.subrange(n, 2 * n), ids[1])),
        turn: ids[starter]@,
        round: 1,
        deck: d.subrange(2 * n, d.len() as int),
        winner: None,
    }
}

fn new_player(id: &String, deck: &mut Vec<Card>) -> (p: Player)
    requires
        old(deck)@.len() >= HAND_SIZE,
    ensures
        p@ == fresh_player(id@, owned_all(old(deck)@.subrange(0, HAND_SIZE as int), *id)),
        final(deck)@ == old(deck)@.subrange(HAND_SIZE as int, old(deck)@.len() as int),
{
    let mut hand: Vec<Card> = Vec::new();
    draw_cards(deck, &mut hand, HAND_SIZE, id);
    assert(hand@ =~= owned_all(old(deck)@.subrange(0, HAND_SIZE as int), *id));
    let p = Player {
        id: id.clone(),
        hand,
        board: Vec::new(),
        discard_pile: Vec::new(),
        current_score: 0,
        rounds_won: 0,
        passed: false,
    };
    assert(p@.board =~= Seq::<Card>::empty());
    assert(p@.discard =~= Seq::<Card>::empty());
    p
}

/// Deals a match from the pile `deck` as it stands, with the player in
/// slot `starter` to move first and `now` as the time stamp.
pub fn init_game_with(room_id: String, player_ids: Vec<String>, deck: Vec<Card>, starter: usize, now: u64) -> (game: GameState)
    requires
        player_ids@.len() == 2,
        player_ids@[0]@ != player_ids@[1]@,
        deck@.len() >= 2 * HAND_SIZE,
        starter < 2,
    ensures
        game@ == dealt(room_id@, player_ids@, deck@, starter as int),
        zone_ids(game@) == ids_of(deck@),
        game.last_update == now,
        game.wf(),
{
    let ghost d = deck@;
    let mut deck = deck;
    let first = new_player(&player_ids[0], &mut deck);
    let second = new_player(&player_ids[1], &mut deck);
    assert(d.subrange(HAND_SIZE as int, d.len() as int).subrange(0, HAND_SIZE as int) =~= d.subrange(HAND_SIZE as int, 2 * HAND_SIZE as int));
    assert(deck@ =~= d.subrange(2 * HAND_SIZE as int, d.len() as int));
    let game = GameState {
        room_id,
        phase: GamePhase::Mulligan,
        players: Players(first, second),
        current_turn: player_ids[starter].clone(),
        round_count: 1,
        deck,
        winner: None,
        last_update: now,
    };
    assert(game@ =~= dealt(game.room_id@, player_ids@, d, starter as int));
    proof {
        let n = HAND_SIZE as int;
        let rest = d.subrange(n, d.len() as int);
        lemma_ids_split(d, n);
        lemma_ids_split(rest, n);
        assert(rest.subrange(0, n) =~= d.subrange(n, 2 * n));
        assert(rest.subrange(n, rest.len() as int) =~= d.subrange(2 * n, d.len() as int));
        lemma_ids_owned(d.subrange(0, n), player_ids@[0]);
        lemma_ids_owned(d.subrange(n, 2 * n), player_ids@[1]);
        assert(ids_of(Seq::<Card>::empty()) =~= vstd::multiset::Multiset::empty());
        assert(zone_ids(game@) =~= ids_of(d));
    }
    game
}

/// Starts a match between two distinct players: the catalog is shuffled,
/// ten cards are dealt to each, and the first player to move is drawn at
/// random. Any other list of players is refused.
pub fn init_game(room_id: String, player_ids: Vec<String>) -> (r: Result<GameState, String>)
    ensures
        r is Err <==> !two_players(player_ids@),
        r matches Err(e) ==> e@ == "A match needs two distinct players"@,
        r matches Ok(game) ==> (exists|d: Seq<Card>, starter: int|
            #![trigger dealt(room_id@, player_ids@, d, starter)]
            is_shuffled_catalog(d) && 0 <= starter < 2 && game@ == dealt(room_id@, player_ids@, d, starter)
                && zone_ids(game@) == ids_of(d)),
        r matches Ok(game) ==> game.wf(),
{
    proof {
        reveal_strlit("A match needs two distinct players");
    }
    if player_ids.len() != 2 {
        return Err("A match needs two distinct players".to_owned());
    }
    if player_ids[0] == player_ids[1] {
        return Err("A match needs two distinct players".to_owned());
    }
    let mut deck = create_deck();
    let ghost catalog = deck@;
    shuffle_cards(&mut deck);
    proof {
        vstd::seq_lib::to_multiset_len(catalog);
        vstd::seq_lib::to_multiset_len(deck@);
    }
    assert(is_shuffled_catalog(deck@));
    let slots: Vec<usize> = vec![0, 1];
    let starter: usize = match choose_from(&slots) {
        Some(k) => k,
        None => 0,
    };
    assert(starter < 2);
    let ghost d = deck@;
    let ghost room = room_id@;
    let ghost ids = player_ids@;
    let game = init_game_with(room_id, player_ids, deck, starter, get_timestamp());
    assert(is_shuffled_catalog(d) && 0 <= starter < 2 && game@ == dealt(room, ids, d, starter as int)
        && zone_ids(game@) == ids_of(d));
    Ok(game)
}

} // verus!
