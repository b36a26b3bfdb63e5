use vstd::prelude::*;

verus! {

/// The suit of a card; `Joker` is reserved for the two jokers.
#[derive(Debug, Clone, Copy, PartialEq, Eq, Structural)]
pub enum Suit {
    Heart,
    Diamond,
    Spade,
    Club,
    Joker,
}

/// The rank of a card: a number from 2 to 10, a face, an ace or a joker.
#[derive(Debug, Clone, Copy, PartialEq, Eq, Structural)]
pub enum Rank {
    Number(u8),
    Jack,
    Queen,
    King,
    Ace,
    Joker,
}

/// The single ability that a card carries.
#[derive(Debug, Clone, Copy, PartialEq, Eq, Structural)]
pub enum CardAbility {
    /// A plain card.
    Plain,
    /// Power bonding: two or more on one board raise each other.
    IronGuard,
    /// Spy: lands on the opponent's board and draws two cards.
    Intel,
    /// Revive: may bring a card back from the discard pile.
    Medic,
    /// Immune to area-destroy, revive and bounce.
    Hero,
    /// Area-destroy: discards the strongest non-immune cards.
    Burn,
    /// Bounce: swaps places with a card of the player's own board.
    Decoy,
}

/// The stage that a match is in.
#[derive(Debug, Clone, Copy, PartialEq, Eq, Structural)]
pub enum GamePhase {
    Waiting,
    Mulligan,
    Playing,
    RoundEnd,
    GameEnd,
}

#[derive(Debug, Clone)]
pub struct Card {
    /// Unique and stable across zone moves.
    pub id: String,
    pub suit: Suit,
    pub rank: Rank,
    /// Fixed at creation.
    pub base_power: u8,
    /// Derived: equals `base_power` except under the bonding rule.
    pub current_power: u8,
    pub ability: CardAbility,
    /// The player credited with the card, or the draw-pile marker.
    pub owner_id: String,
}

#[derive(Debug, Clone)]
pub struct Player {
    pub id: String,
    pub hand: Vec<Card>,
    pub board: Vec<Card>,
    pub discard_pile: Vec<Card>,
    /// Sum of the current power of the cards on the board.
    pub current_score: u32,
    pub rounds_won: u8,
    /// Set once the player has passed in the current round.
    pub passed: bool,
}

/// The two players of a match, in fixed slots.
#[derive(Debug, Clone)]
pub struct Players(pub Player, pub Player);

/// The state of one match. The two players sit in a fixed pair of slots,
/// in the order in which the match was created with their identifiers.
#[derive(Debug, Clone)]
pub struct GameState {
    pub room_id: String,
    pub phase: GamePhase,
    pub players: Players,
    pub current_turn: String,
    pub round_count: u32,
    /// The shared draw pile; its front is drawn first.
    pub deck: Vec<Card>,
    /// A player's identifier, or the draw marker, once the match is over.
    pub winner: Option<String>,
    /// Seconds since the Unix epoch at the last change.
    pub last_update: u64,
}

impl GameState {
    /// The player in slot `s` (0 or 1).
    pub open spec fn slot(self, s: int) -> Player {
        if s == 0 { self.players.0 } else { self.players.1 }
    }

    /// Both slots hold players with distinct identifiers.
    pub open spec fn wf(self) -> bool {
        self.players.0.id@ != self.players.1.id@
    }
}

} // verus!

verus! {

/// What a player is, as the contracts see it.
pub struct PlayerView {
    pub id: Seq<char>,
    pub hand: Seq<Card>,
    pub board: Seq<Card>,
    pub discard: Seq<Card>,
    pub score: u32,
    pub rounds_won: u8,
    pub passed: bool,
}

impl View for Player {
    type V = PlayerView;

    open spec fn view(&self) -> PlayerView {
        PlayerView {
            id: self.id@,
            hand: self.hand@,
            board: self.board@,
            discard: self.discard_pile@,
            score: self.current_score,
            rounds_won: self.rounds_won,
            passed: self.passed,
        }
    }
}

/// What a match is, as the contracts see it: everything but the time stamp.
pub struct GameView {
    pub room: Seq<char>,
    pub phase: GamePhase,
    pub p0: PlayerView,
    pub p1: PlayerView,
    pub turn: Seq<char>,
    pub round: u32,
    pub deck: Seq<Card>,
    pub winner: Option<Seq<char>>,
}

impl GameView {
    /// The player in slot `s` (0 or 1).
    pub open spec fn p(self, s: int) -> PlayerView {
        if s == 0 { self.p0 } else { self.p1 }
    }

    /// The match with slot `s` replaced by `pv`.
    pub open spec fn with_p(self, s: int, pv: PlayerView) -> GameView {
        if s == 0 { GameView { p0: pv, ..self } } else { GameView { p1: pv, ..self } }
    }
}

impl View for GameState {
    type V = GameView;

    open spec fn view(&self) -> GameView {
        GameView {
            room: self.room_id@,
            phase: self.phase,
            p0: self.players.0@,
            p1: self.players.1@,
            turn: self.current_turn@,
            round: self.round_count,
            deck: self.deck@,
            winner: match self.winner {
                Some(w) => Some(w@),
                None => None,
            },
        }
    }
}

} // verus!
