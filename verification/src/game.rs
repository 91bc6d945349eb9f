//! The round state machine and battle-resolution engine.
//!
//! A `Game` owns the per-player hands and in-play slots, the shared pot, the
//! active round state and the status message.  A single `advance` call
//! drives one transition of
//! `Begin -> GameStart -> Draw <-> Outcome -> GameOver -> GameStart`,
//! running the entry actions of the state that is entered.  The functional
//! model of every transition is a spec function, and `advance` is proved to
//! implement it exactly.

use vstd::prelude::*;
use vstd::string::StringExecFns;
use crate::card::{
    Card, cards_wf, full_deck, lemma_cards_wf_concat, lemma_cards_wf_from, lemma_deck_properties,
};
use crate::deck::{
    GameError, dealt_hand, dealt_total, initial_cards, lemma_dealt_total, shuffle_in_place,
    shuffle_of,
};
use crate::text::{spec_digits, usize_to_string};

verus! {

/// The states of the round state machine.
#[derive(Clone, Copy, Debug, PartialEq, Eq, Structural)]
pub enum RoundState {
    /// Before the first game of the process.
    Begin,
    /// A fresh deck has just been dealt.
    GameStart,
    /// Every player with cards has revealed their top card.
    Draw,
    /// The revealed cards have been compared and moved.
    Outcome,
    /// At most one player still holds cards.
    GameOver,
}

/// The status message of the current round.
#[derive(Clone, Copy, Debug, PartialEq, Eq, Structural)]
pub enum Status {
    /// No outcome is on display.
    Empty,
    /// The last round was a draw; the pot carries over.
    Draw,
    /// The player with this number won the last round.
    RoundWin(usize),
    /// The player with this number won the game.
    GameWin(usize),
}

/// One player's cards: the hand, index 0 on top, and the in-play slot that
/// holds the currently revealed card, if any.
pub struct PlayerState {
    pub hand: Vec<Card>,
    pub in_play: Vec<Card>,
}

/// The mathematical view of one player's cards.
#[verifier::ext_equal]
pub struct PlayerView {
    pub hand: Seq<Card>,
    pub in_play: Seq<Card>,
}

impl View for PlayerState {
    type V = PlayerView;

    open spec fn view(&self) -> PlayerView {
        PlayerView { hand: self.hand@, in_play: self.in_play@ }
    }
}

impl PlayerState {
    /// Empties the hand, leaving the in-play slot alone.
    pub fn clear_hand(&mut self)
        ensures
            final(self)@.hand.len() == 0,
            final(self)@.in_play == old(self)@.in_play,
    {
        self.hand.clear();
    }

    /// Appends the given cards to the bottom of the hand, emptying the
    /// source.
    pub fn append_to_hand(&mut self, cards: &mut Vec<Card>)
        ensures
            final(self)@.hand == old(self)@.hand + old(cards)@,
            final(self)@.in_play == old(self)@.in_play,
            final(cards)@.len() == 0,
    {
        self.hand.append(cards);
    }

    /// Reveals the top of the hand into the in-play slot and returns it; a
    /// player with an empty hand reveals nothing, which is the expected
    /// state for a player who is out, not a failure.
    pub fn reveal_top(&mut self) -> (c: Option<Card>)
        ensures
            final(self)@ == reveal_player(old(self)@),
            c == if old(self)@.hand.len() > 0 {
                Some(old(self)@.hand[0])
            } else {
                None
            },
    {
        if self.hand.len() > 0 {
            let card = self.hand.remove(0);
            self.in_play.insert(0, card);
            proof {
                assert(old(self)@.hand.remove(0) =~= old(self)@.hand.drop_first());
                assert(old(self)@.in_play.insert(0, old(self)@.hand[0]) =~= seq![
                    old(self)@.hand[0],
                ] + old(self)@.in_play);
                assert(self@ =~= reveal_player(old(self)@));
            }
            Some(card)
        } else {
            None
        }
    }
}

/// The whole game: the players in ascending player order (player number
/// `i + 1` is at index `i`), the shared pot, the active round state and the
/// status message.
pub struct Game {
    pub players: Vec<PlayerState>,
    pub pot: Vec<Card>,
    pub state: RoundState,
    pub status: Status,
}

/// The mathematical view of a game.
#[verifier::ext_equal]
pub struct GameView {
    pub players: Seq<PlayerView>,
    pub pot: Seq<Card>,
    pub state: RoundState,
    pub status: Status,
}

impl View for Game {
    type V = GameView;

    open spec fn view(&self) -> GameView {
        GameView {
            players: self.players@.map_values(|p: PlayerState| p@),
            pot: self.pot@,
            state: self.state,
            status: self.status,
        }
    }
}

// ------------------------------------------------------------------
// Well-formedness
// ------------------------------------------------------------------
/// A player's cards are well formed and at most one card is in play.
pub open spec fn player_wf(p: PlayerView) -> bool {
    &&& cards_wf(p.hand)
    &&& cards_wf(p.in_play)
    &&& p.in_play.len() <= 1
}

/// No player has a card in play.
pub open spec fn no_cards_in_play(ps: Seq<PlayerView>) -> bool {
    forall|i: int| 0 <= i < ps.len() ==> (#[trigger] ps[i]).in_play.len() == 0
}

impl GameView {
    /// The game invariant: at least two players, well-formed cards, at most
    /// one card in play per player, and cards in play only while a round's
    /// reveals are on the table.
    pub open spec fn wf(self) -> bool {
        &&& self.players.len() >= 2
        &&& forall|i: int| 0 <= i < self.players.len() ==> player_wf(#[trigger] self.players[i])
        &&& cards_wf(self.pot)
        &&& self.state != RoundState::Draw ==> no_cards_in_play(self.players)
    }
}

// ------------------------------------------------------------------
// Card conservation
// ------------------------------------------------------------------
/// The number of cards a player holds, hand and in-play slot together.
pub open spec fn player_total(p: PlayerView) -> nat {
    p.hand.len() + p.in_play.len()
}

/// The number of cards all players together hold.
pub open spec fn players_total(ps: Seq<PlayerView>) -> nat
    decreases ps.len(),
{
    if ps.len() == 0 {
        0
    } else {
        players_total(ps.drop_last()) + player_total(ps.last())
    }
}

/// The number of cards in the whole game: hands, in-play slots and pot.
pub open spec fn total_cards(v: GameView) -> nat {
    players_total(v.players) + v.pot.len()
}

proof fn lemma_players_total_pointwise(ps1: Seq<PlayerView>, ps2: Seq<PlayerView>)
    requires
        ps1.len() == ps2.len(),
        forall|i: int|
            0 <= i < ps1.len() ==> player_total(#[trigger] ps1[i]) == player_total(ps2[i]),
    ensures
        players_total(ps1) == players_total(ps2),
    decreases ps1.len(),
{
    if ps1.len() > 0 {
        lemma_players_total_pointwise(ps1.drop_last(), ps2.drop_last());
    }
}

proof fn lemma_players_total_update(ps: Seq<PlayerView>, w: int, pv: PlayerView)
    requires
        0 <= w < ps.len(),
    ensures
        players_total(ps.update(w, pv)) + player_total(ps[w]) == players_total(ps) + player_total(
            pv,
        ),
    decreases ps.len(),
{
    if w == ps.len() - 1 {
        assert(ps.update(w, pv).drop_last() =~= ps.drop_last());
        assert(ps.update(w, pv).last() == pv);
    } else {
        assert(ps.update(w, pv).drop_last() =~= ps.drop_last().update(w, pv));
        assert(ps.update(w, pv).last() == ps.last());
        lemma_players_total_update(ps.drop_last(), w, pv);
    }
}

// ------------------------------------------------------------------
// Dealing (GameStart entry)
// ------------------------------------------------------------------
/// The game as it stands after a GameStart entry: pot and in-play slots
/// cleared, a fresh deck shuffled with `seed` and dealt round-robin.
pub open spec fn started_view(v: GameView, seed: u64) -> GameView {
    let n = v.players.len() as int;
    GameView {
        players: Seq::new(
            v.players.len(),
            |p: int|
                PlayerView {
                    hand: dealt_hand(shuffle_of(seed, full_deck()), n, p),
                    in_play: Seq::empty(),
                },
        ),
        pot: Seq::empty(),
        state: RoundState::GameStart,
        status: v.status,
    }
}

proof fn lemma_players_total_dealt(deck: Seq<Card>, n: int, k: int)
    requires
        0 <= k <= n,
    ensures
        players_total(
            Seq::new(
                k as nat,
                |p: int| PlayerView { hand: dealt_hand(deck, n, p), in_play: Seq::empty() },
            ),
        ) == dealt_total(deck, n, k),
    decreases k,
{
    let f = |p: int| PlayerView { hand: dealt_hand(deck, n, p), in_play: Seq::empty() };
    if k > 0 {
        assert(Seq::new(k as nat, f).drop_last() =~= Seq::new((k - 1) as nat, f));
        lemma_players_total_dealt(deck, n, k - 1);
    }
}

/// A GameStart entry leaves exactly the 52 cards of a full deck in play,
/// provided the shuffled deck it dealt from held them.
proof fn lemma_started_total(v: GameView, seed: u64)
    requires
        v.players.len() >= 1,
        shuffle_of(seed, full_deck()).len() == 52,
    ensures
        total_cards(started_view(v, seed)) == 52,
{
    let n = v.players.len() as int;
    let deck = shuffle_of(seed, full_deck());
    lemma_players_total_dealt(deck, n, n);
    lemma_dealt_total(deck, n);
}

// ------------------------------------------------------------------
// Reveal (Draw entry)
// ------------------------------------------------------------------
/// One player's reveal: the top card of a non-empty hand moves to the
/// in-play slot; a player with an empty hand does not reveal.
pub open spec fn reveal_player(p: PlayerView) -> PlayerView {
    if p.hand.len() > 0 {
        PlayerView { hand: p.hand.drop_first(), in_play: seq![p.hand[0]] + p.in_play }
    } else {
        p
    }
}

/// The game as it stands after a Draw entry: the previous outcome text is
/// cleared and every player with cards reveals their top card.
pub open spec fn revealed_view(v: GameView) -> GameView {
    GameView {
        players: Seq::new(v.players.len(), |i: int| reveal_player(v.players[i])),
        pot: v.pot,
        state: RoundState::Draw,
        status: Status::Empty,
    }
}

/// Revealing moves cards only between a hand and its in-play slot: the
/// total is unchanged.
proof fn lemma_reveal_player_total(p: PlayerView)
    ensures
        player_total(reveal_player(p)) == player_total(p),
{
    if p.hand.len() > 0 {
        assert(reveal_player(p).hand.len() == p.hand.len() - 1);
        assert(reveal_player(p).in_play.len() == 1 + p.in_play.len());
    }
}

proof fn lemma_revealed_total(v: GameView)
    ensures
        total_cards(revealed_view(v)) == total_cards(v),
{
    let rs = revealed_view(v).players;
    assert forall|i: int| 0 <= i < rs.len() implies player_total(#[trigger] rs[i])
        == player_total(v.players[i]) by {
        assert(rs[i] == reveal_player(v.players[i]));
        lemma_reveal_player_total(v.players[i]);
    }
    lemma_players_total_pointwise(rs, v.players);
}

// ------------------------------------------------------------------
// Battle resolution (Outcome entry)
// ------------------------------------------------------------------
/// Whether the player has a revealed card.
pub open spec fn has_revealed(p: PlayerView) -> bool {
    p.in_play.len() > 0
}

/// The rank of the player's revealed card.
pub open spec fn revealed_rank(p: PlayerView) -> int
    recommends
        has_revealed(p),
{
    p.in_play[0].rank as int
}

/// The greatest revealed rank, or 0, lower than any valid rank, when no
/// player has revealed a card.
pub open spec fn max_rank(ps: Seq<PlayerView>) -> int
    decreases ps.len(),
{
    if ps.len() == 0 {
        0
    } else {
        let m = max_rank(ps.drop_last());
        if has_revealed(ps.last()) && revealed_rank(ps.last()) > m {
            revealed_rank(ps.last())
        } else {
            m
        }
    }
}

/// How many players have revealed a card of rank `r`.
pub open spec fn count_at_rank(ps: Seq<PlayerView>, r: int) -> nat
    decreases ps.len(),
{
    if ps.len() == 0 {
        0
    } else {
        count_at_rank(ps.drop_last(), r) + if has_revealed(ps.last()) && revealed_rank(ps.last())
            == r {
            1nat
        } else {
            0nat
        }
    }
}

/// The least index of a player whose revealed card has rank `r`.
pub open spec fn first_at_rank(ps: Seq<PlayerView>, r: int) -> int
    recommends
        count_at_rank(ps, r) >= 1,
    decreases ps.len(),
{
    if ps.len() == 0 {
        0
    } else if count_at_rank(ps.drop_last(), r) >= 1 {
        first_at_rank(ps.drop_last(), r)
    } else if has_revealed(ps.last()) && revealed_rank(ps.last()) == r {
        ps.len() - 1
    } else {
        0
    }
}

/// A round is a draw when the greatest revealed rank is not achieved by
/// exactly one player: either several revealed cards tie at the maximum, or
/// nobody revealed at all.
pub open spec fn is_draw_of(ps: Seq<PlayerView>) -> bool {
    count_at_rank(ps, max_rank(ps)) != 1
}

/// The winner of a decisive round: the first player whose revealed card has
/// the greatest revealed rank.
pub open spec fn winner_index(ps: Seq<PlayerView>) -> int {
    first_at_rank(ps, max_rank(ps))
}

/// All revealed cards, in ascending player order.
pub open spec fn revealed_cards_of(ps: Seq<PlayerView>) -> Seq<Card>
    decreases ps.len(),
{
    if ps.len() == 0 {
        Seq::empty()
    } else {
        revealed_cards_of(ps.drop_last()) + ps.last().in_play
    }
}

/// The players with every in-play slot emptied, hands untouched.
pub open spec fn clear_in_play(ps: Seq<PlayerView>) -> Seq<PlayerView> {
    Seq::new(ps.len(), |i: int| PlayerView { hand: ps[i].hand, in_play: Seq::empty() })
}

/// The game as it stands after an Outcome entry.  Every revealed card joins
/// the pot.  On a draw the pot carries over and nothing else moves; on a
/// decisive round the winner's hand receives the whole pot, shuffled with
/// `seed`, and the pot is emptied.
pub open spec fn resolved_view(v: GameView, seed: u64) -> GameView {
    let pooled = v.pot + revealed_cards_of(v.players);
    let cleared = clear_in_play(v.players);
    if is_draw_of(v.players) {
        GameView { players: cleared, pot: pooled, state: RoundState::Outcome, status: Status::Draw }
    } else {
        let w = winner_index(v.players);
        GameView {
            players: cleared.update(
                w,
                PlayerView { hand: v.players[w].hand + shuffle_of(seed, pooled), in_play: Seq::empty() },
            ),
            pot: Seq::empty(),
            state: RoundState::Outcome,
            status: Status::RoundWin((w + 1) as usize),
        }
    }
}

/// No revealed rank exceeds the maximum: above it the count is zero.
proof fn lemma_count_above_max(ps: Seq<PlayerView>, r: int)
    requires
        r > max_rank(ps),
    ensures
        count_at_rank(ps, r) == 0,
    decreases ps.len(),
{
    if ps.len() > 0 {
        lemma_count_above_max(ps.drop_last(), r);
    }
}

/// When some player achieves rank `r`, the first such index is a valid
/// player index whose revealed card has rank `r`.
pub proof fn lemma_first_at_rank(ps: Seq<PlayerView>, r: int)
    requires
        count_at_rank(ps, r) >= 1,
    ensures
        0 <= first_at_rank(ps, r) < ps.len(),
        has_revealed(ps[first_at_rank(ps, r)]),
        revealed_rank(ps[first_at_rank(ps, r)]) == r,
    decreases ps.len(),
{
    if ps.len() > 0 {
        if count_at_rank(ps.drop_last(), r) >= 1 {
            lemma_first_at_rank(ps.drop_last(), r);
            assert(ps[first_at_rank(ps, r)] == ps.drop_last()[first_at_rank(ps, r)]);
        }
    }
}

/// Clearing the in-play slots removes exactly the revealed cards.
proof fn lemma_clear_total(ps: Seq<PlayerView>)
    ensures
        players_total(clear_in_play(ps)) + revealed_cards_of(ps).len() == players_total(ps),
    decreases ps.len(),
{
    if ps.len() > 0 {
        assert(clear_in_play(ps).drop_last() =~= clear_in_play(ps.drop_last()));
        assert(clear_in_play(ps).last() == PlayerView {
            hand: ps.last().hand,
            in_play: Seq::empty(),
        });
        lemma_clear_total(ps.drop_last());
    }
}

/// Revealed cards of well-formed players are well formed.
proof fn lemma_revealed_cards_wf(ps: Seq<PlayerView>)
    requires
        forall|i: int| 0 <= i < ps.len() ==> player_wf(#[trigger] ps[i]),
    ensures
        cards_wf(revealed_cards_of(ps)),
    decreases ps.len(),
{
    if ps.len() > 0 {
        lemma_revealed_cards_wf(ps.drop_last());
        assert(player_wf(ps[ps.len() - 1]));
        lemma_cards_wf_concat(revealed_cards_of(ps.drop_last()), ps.last().in_play);
    }
}

// ------------------------------------------------------------------
// End detection and final ranking (Outcome exit, GameOver entry)
// ------------------------------------------------------------------
/// How many players hold no cards in their hand.
pub open spec fn empty_handed(ps: Seq<PlayerView>) -> nat
    decreases ps.len(),
{
    if ps.len() == 0 {
        0
    } else {
        empty_handed(ps.drop_last()) + if ps.last().hand.len() == 0 {
            1nat
        } else {
            0nat
        }
    }
}

/// The game ends when at most one player still holds cards.
pub open spec fn end_reached(v: GameView) -> bool {
    empty_handed(v.players) + 1 >= v.players.len()
}

/// The largest hand size among the players.
pub open spec fn max_hand(ps: Seq<PlayerView>) -> nat
    decreases ps.len(),
{
    if ps.len() == 0 {
        0
    } else {
        let m = max_hand(ps.drop_last());
        if ps.last().hand.len() > m {
            ps.last().hand.len()
        } else {
            m
        }
    }
}

/// How many players hold a hand of size `l`.
pub open spec fn count_at_hand(ps: Seq<PlayerView>, l: nat) -> nat
    decreases ps.len(),
{
    if ps.len() == 0 {
        0
    } else {
        count_at_hand(ps.drop_last(), l) + if ps.last().hand.len() == l {
            1nat
        } else {
            0nat
        }
    }
}

/// The least index of a player whose hand has size `l`.
pub open spec fn first_at_hand(ps: Seq<PlayerView>, l: nat) -> int
    recommends
        count_at_hand(ps, l) >= 1,
    decreases ps.len(),
{
    if ps.len() == 0 {
        0
    } else if count_at_hand(ps.drop_last(), l) >= 1 {
        first_at_hand(ps.drop_last(), l)
    } else if ps.last().hand.len() == l {
        ps.len() - 1
    } else {
        0
    }
}

/// The winner of a finished game: the first player with the largest hand,
/// or nobody when every hand is empty.
pub open spec fn spec_winner(ps: Seq<PlayerView>) -> Option<int> {
    if max_hand(ps) == 0 {
        None
    } else {
        Some(first_at_hand(ps, max_hand(ps)))
    }
}

/// The game as it stands after a GameOver entry: cards untouched, and the
/// winner, if any hand is non-empty, announced in the status.
pub open spec fn game_over_view(v: GameView) -> GameView {
    GameView {
        players: v.players,
        pot: v.pot,
        state: RoundState::GameOver,
        status: match spec_winner(v.players) {
            Some(w) => Status::GameWin((w + 1) as usize),
            None => v.status,
        },
    }
}

proof fn lemma_count_above_max_hand(ps: Seq<PlayerView>, l: nat)
    requires
        l > max_hand(ps),
    ensures
        count_at_hand(ps, l) == 0,
    decreases ps.len(),
{
    if ps.len() > 0 {
        lemma_count_above_max_hand(ps.drop_last(), l);
    }
}

// ------------------------------------------------------------------
// The state machine
// ------------------------------------------------------------------
/// One transition of the round state machine on an advance signal, with the
/// entry actions of the state entered:
/// `Begin -> GameStart -> Draw -> Outcome -> Draw` looping until, on leaving
/// Outcome, at most one player still holds cards, which forces `GameOver`;
/// from `GameOver` an advance restarts at `GameStart`.
pub open spec fn spec_advance(v: GameView, seed: u64) -> GameView {
    match v.state {
        RoundState::Begin => started_view(v, seed),
        RoundState::GameStart => revealed_view(v),
        RoundState::Draw => resolved_view(v, seed),
        RoundState::Outcome => if end_reached(v) {
            game_over_view(v)
        } else {
            revealed_view(v)
        },
        RoundState::GameOver => started_view(v, seed),
    }
}

// ------------------------------------------------------------------
// Laws
// ------------------------------------------------------------------
/// Draw accumulation: a drawn round pools every revealed card into the pot
/// and loses none, so the pot grows monotonically across consecutive draws;
/// a decisive round transfers the whole accumulated pot, shuffled, to the
/// winner's hand in one step and leaves the pot empty.
pub proof fn lemma_pot_accumulation(v: GameView, seed: u64)
    requires
        v.wf(),
    ensures
        is_draw_of(v.players) ==> resolved_view(v, seed).pot == v.pot + revealed_cards_of(
            v.players,
        ) && resolved_view(v, seed).pot.len() >= v.pot.len(),
        !is_draw_of(v.players) ==> resolved_view(v, seed).pot.len() == 0 && resolved_view(
            v,
            seed,
        ).players[winner_index(v.players)].hand == v.players[winner_index(v.players)].hand
            + shuffle_of(seed, v.pot + revealed_cards_of(v.players)),
{
    if !is_draw_of(v.players) {
        lemma_first_at_rank(v.players, max_rank(v.players));
    }
}

/// Resolution correctness: on a decisive round the winner is a player whose
/// revealed card carries the greatest revealed rank, and the status
/// announces that player's 1-based number.
pub proof fn lemma_resolution_winner(v: GameView, seed: u64)
    requires
        v.wf(),
        !is_draw_of(v.players),
    ensures
        0 <= winner_index(v.players) < v.players.len(),
        has_revealed(v.players[winner_index(v.players)]),
        revealed_rank(v.players[winner_index(v.players)]) == max_rank(v.players),
        resolved_view(v, seed).status == Status::RoundWin((winner_index(v.players) + 1) as usize),
{
    lemma_first_at_rank(v.players, max_rank(v.players));
}

/// End detection: one advance lands in GameOver exactly when it leaves
/// Outcome with at most one player still holding cards — never before, and
/// never from any other state.
pub proof fn lemma_game_over_exactly_at_end(v: GameView, seed: u64)
    requires
        v.wf(),
    ensures
        spec_advance(v, seed).state == RoundState::GameOver <==> (v.state == RoundState::Outcome
            && end_reached(v)),
{
}

/// With exactly two players the end condition holds exactly when one of the
/// two hands has become empty.
pub proof fn lemma_end_two_players(v: GameView)
    requires
        v.wf(),
        v.players.len() == 2,
    ensures
        end_reached(v) <==> (v.players[0].hand.len() == 0 || v.players[1].hand.len() == 0),
{
    let ps = v.players;
    assert(ps.drop_last().drop_last() =~= Seq::<PlayerView>::empty());
    assert(ps.drop_last().last() == ps[0]);
    assert(ps.last() == ps[1]);
    assert(empty_handed(ps.drop_last().drop_last()) == 0);
    assert(empty_handed(ps.drop_last()) == if ps[0].hand.len() == 0 {
        1nat
    } else {
        0nat
    });
    assert(empty_handed(ps) == empty_handed(ps.drop_last()) + if ps[1].hand.len() == 0 {
        1nat
    } else {
        0nat
    });
}

proof fn lemma_players_total_zero(ps: Seq<PlayerView>)
    requires
        forall|i: int| 0 <= i < ps.len() ==> player_total(#[trigger] ps[i]) == 0,
    ensures
        players_total(ps) == 0,
    decreases ps.len(),
{
    if ps.len() > 0 {
        lemma_players_total_zero(ps.drop_last());
    }
}

// ------------------------------------------------------------------
// Status text
// ------------------------------------------------------------------
/// The status message as text: empty, "Draw!", "Player {n} win!" for a round
/// win, or "Player {n} wins! Play again?" for the end of a game.
pub open spec fn spec_status_text(st: Status) -> Seq<char> {
    match st {
        Status::Empty => ""@,
        Status::Draw => "Draw!"@,
        Status::RoundWin(p) => "Player "@ + spec_digits(p as int) + " win!"@,
        Status::GameWin(p) => "Player "@ + spec_digits(p as int) + " wins! Play again?"@,
    }
}

/// Renders a status message.
pub fn status_string(st: &Status) -> (r: String)
    ensures
        r@ == spec_status_text(*st),
{
    match st {
        Status::Empty => String::from_str(""),
        Status::Draw => String::from_str("Draw!"),
        Status::RoundWin(p) => {
            let mut s = String::from_str("Player ");
            s.append(usize_to_string(*p).as_str());
            s.append(" win!");
            s
        },
        Status::GameWin(p) => {
            let mut s = String::from_str("Player ");
            s.append(usize_to_string(*p).as_str());
            s.append(" wins! Play again?");
            s
        },
    }
}

// ------------------------------------------------------------------
// The executable game
// ------------------------------------------------------------------
impl Game {
    /// The game invariant, on the view.
    pub open spec fn wf(&self) -> bool {
        self@.wf()
    }

    /// Creates a game for `num_players` players, everything empty and the
    /// state machine at Begin.  Fewer than two players is rejected before
    /// any state exists.
    pub fn new(num_players: usize) -> (r: Result<Game, GameError>)
        ensures
            match r {
                Ok(g) => num_players >= 2 && g@.players.len() == num_players && (forall|i: int|
                    0 <= i < num_players ==> (#[trigger] g@.players[i]).hand.len() == 0
                        && g@.players[i].in_play.len() == 0) && g@.pot.len() == 0 && g@.state
                    == RoundState::Begin && g@.status == Status::Empty && g.wf() && total_cards(g@)
                    == 0,
                Err(e) => num_players < 2 && e == GameError::InvalidPlayerCount,
            },
    {
        if num_players < 2 {
            return Err(GameError::InvalidPlayerCount);
        }
        let mut players: Vec<PlayerState> = Vec::new();
        while players.len() < num_players
            invariant
                players@.len() <= num_players,
                forall|i: int|
                    0 <= i < players@.len() ==> (#[trigger] players@[i])@.hand.len() == 0
                        && players@[i]@.in_play.len() == 0,
            decreases num_players - players.len(),
        {
            players.push(PlayerState { hand: Vec::new(), in_play: Vec::new() });
        }
        let g = Game {
            players,
            pot: Vec::new(),
            state: RoundState::Begin,
            status: Status::Empty,
        };
        proof {
            lemma_players_total_zero(g@.players);
        }
        Ok(g)
    }

    /// The number of players.
    pub fn num_players(&self) -> (n: usize)
        ensures
            n == self@.players.len(),
    {
        self.players.len()
    }

    /// How many cards player `player` (0-based index) holds in hand.
    pub fn hand_size(&self, player: usize) -> (n: usize)
        requires
            player < self@.players.len(),
        ensures
            n == self@.players[player as int].hand.len(),
    {
        self.players[player].hand.len()
    }

    /// The card player `player` has revealed this round, if any.
    pub fn revealed_card(&self, player: usize) -> (c: Option<Card>)
        requires
            player < self@.players.len(),
        ensures
            c == if has_revealed(self@.players[player as int]) {
                Some(self@.players[player as int].in_play[0])
            } else {
                None
            },
    {
        if self.players[player].in_play.len() > 0 {
            Some(self.players[player].in_play[0])
        } else {
            None
        }
    }

    /// How many cards the shared pot holds.
    pub fn pot_size(&self) -> (n: usize)
        ensures
            n == self@.pot.len(),
    {
        self.pot.len()
    }

    /// The active round state.
    pub fn current_state(&self) -> (s: RoundState)
        ensures
            s == self@.state,
    {
        self.state
    }

    /// The status message of the current round.
    pub fn current_status(&self) -> (s: Status)
        ensures
            s == self@.status,
    {
        self.status
    }

    /// The status message of the current round, as text.
    pub fn current_status_text(&self) -> (t: String)
        ensures
            t@ == spec_status_text(self@.status),
    {
        status_string(&self.status)
    }

    /// The GameStart entry: empties the pot, the hands and the in-play
    /// slots, then builds a fresh deck, shuffles it with `seed` and deals it
    /// round-robin to the players.
    fn game_start(&mut self, seed: u64)
        requires
            old(self)@.wf(),
        ensures
            final(self)@ == started_view(old(self)@, seed),
            final(self)@.wf(),
            total_cards(final(self)@) == 52,
    {
        let n = self.players.len();
        self.pot.clear();
        let mut i: usize = 0;
        while i < n
            invariant
                n == self.players@.len(),
                self.players@.len() == old(self).players@.len(),
                i <= n,
                forall|j: int|
                    0 <= j < i ==> (#[trigger] self.players@[j])@.hand.len() == 0
                        && self.players@[j]@.in_play.len() == 0,
                self.pot@.len() == 0,
                self.status == old(self).status,
            decreases n - i,
        {
            self.players[i].hand.clear();
            self.players[i].in_play.clear();
            i = i + 1;
        }
        let deck = initial_cards(seed);
        let ghost dk = deck@;
        let mut i: usize = 0;
        while i < deck.len()
            invariant
                n == self.players@.len(),
                n >= 2,
                deck@ == dk,
                dk == shuffle_of(seed, full_deck()),
                dk.len() == 52,
                i <= dk.len(),
                forall|p: int|
                    0 <= p < n ==> (#[trigger] self.players@[p])@.hand == dealt_hand(
                        dk.take(i as int),
                        n as int,
                        p,
                    ),
                forall|p: int| 0 <= p < n ==> (#[trigger] self.players@[p])@.in_play.len() == 0,
                self.pot@.len() == 0,
                self.status == old(self).status,
            decreases dk.len() - i,
        {
            let card = deck[i];
            let target = i % n;
            self.players[target].hand.push(card);
            proof {
                let pre = dk.take(i as int);
                let cur = dk.take(i + 1);
                assert(cur.drop_last() =~= pre);
                assert(cur.last() == dk[i as int]);
                assert(forall|p: int|
                    0 <= p < n && p != target ==> dealt_hand(cur, n as int, p) == dealt_hand(
                        pre,
                        n as int,
                        p,
                    ));
                assert(dealt_hand(cur, n as int, target as int) == dealt_hand(
                    pre,
                    n as int,
                    target as int,
                ).push(dk[i as int]));
            }
            i = i + 1;
        }
        self.state = RoundState::GameStart;
        proof {
            assert(dk.take(dk.len() as int) =~= dk);
            let v0 = old(self)@;
            // The dealt deck is well formed: shuffling rearranges the cards
            // of the full deck, whose cards are all well formed.
            lemma_deck_properties();
            assert(cards_wf(full_deck()));
            lemma_cards_wf_from(full_deck(), dk);
            let sv = started_view(v0, seed);
            assert forall|p: int| 0 <= p < n implies self@.players[p] =~= sv.players[p] by {
                assert(self@.players[p].hand == dealt_hand(dk, n as int, p));
            }
            assert(self@ =~~= sv);
            assert forall|p: int| 0 <= p < n implies player_wf(#[trigger] self@.players[p]) by {
                crate::deck::lemma_dealt_hand_wf(dk, n as int, p);
            }
            lemma_started_total(v0, seed);
        }
    }

    /// The Draw entry: clears the outcome text, then every player with a
    /// non-empty hand reveals their top card into their in-play slot;
    /// players with an empty hand do not reveal.
    fn reveal_all(&mut self)
        requires
            old(self)@.wf(),
            no_cards_in_play(old(self)@.players),
        ensures
            final(self)@ == revealed_view(old(self)@),
            final(self)@.wf(),
            total_cards(final(self)@) == total_cards(old(self)@),
    {
        self.status = Status::Empty;
        self.state = RoundState::Draw;
        let n = self.players.len();
        let mut i: usize = 0;
        while i < n
            invariant
                n == self.players@.len(),
                self.players@.len() == old(self).players@.len(),
                i <= n,
                forall|j: int|
                    0 <= j < i ==> (#[trigger] self.players@[j])@ == reveal_player(
                        old(self)@.players[j],
                    ),
                forall|j: int| i <= j < n ==> self.players@[j] == old(self).players@[j],
                self.pot@ == old(self).pot@,
                self.state == RoundState::Draw,
                self.status == Status::Empty,
            decreases n - i,
        {
            self.players[i].reveal_top();
            proof {
                let p0 = old(self)@.players[i as int];
                assert(p0 == old(self).players@[i as int]@);
                assert((self.players@[i as int])@ == reveal_player(p0));
            }
            i = i + 1;
        }
        proof {
            let v0 = old(self)@;
            let rv = revealed_view(v0);
            assert forall|p: int| 0 <= p < n implies self@.players[p] =~= rv.players[p] by {}
            assert(self@ =~~= rv);
            assert forall|p: int| 0 <= p < n implies player_wf(#[trigger] self@.players[p]) by {
                let q = v0.players[p];
                assert(player_wf(q));
                if q.hand.len() > 0 {
                    assert(reveal_player(q).in_play =~= seq![q.hand[0]]);
                    assert forall|k: int|
                        0 <= k < reveal_player(q).hand.len() implies (#[trigger] reveal_player(
                        q,
                    ).hand[k]).wf() by {
                        assert(reveal_player(q).hand[k] == q.hand[k + 1]);
                    }
                    assert(q.hand[0].wf());
                }
            }
            lemma_revealed_total(v0);
        }
    }

    /// The Outcome entry: compares the revealed cards in ascending player
    /// order, moves every revealed card to the pot, and on a decisive round
    /// hands the whole pot, shuffled with `seed`, to the winner.  On a draw
    /// the pot carries over to the next round.
    fn resolve_battle(&mut self, seed: u64)
        requires
            old(self)@.wf(),
        ensures
            final(self)@ == resolved_view(old(self)@, seed),
            final(self)@.wf(),
            total_cards(final(self)@) == total_cards(old(self)@),
    {
        let ghost v0 = self@;
        let n = self.players.len();
        let mut greatest: u8 = 0;
        let mut winner: usize = 0;
        let mut is_draw = true;
        let mut i: usize = 0;
        while i < n
            invariant
                *self == *old(self),
                v0 == self@,
                v0.wf(),
                n == v0.players.len(),
                i <= n,
                greatest as int == max_rank(v0.players.take(i as int)),
                is_draw == (count_at_rank(
                    v0.players.take(i as int),
                    max_rank(v0.players.take(i as int)),
                ) != 1),
                greatest > 0 ==> count_at_rank(v0.players.take(i as int), greatest as int) >= 1,
                count_at_rank(v0.players.take(i as int), max_rank(v0.players.take(i as int))) >= 1
                    ==> winner < i && winner as int == first_at_rank(
                    v0.players.take(i as int),
                    max_rank(v0.players.take(i as int)),
                ),
            decreases n - i,
        {
            let ghost pre = v0.players.take(i as int);
            let ghost cur = v0.players.take(i + 1);
            proof {
                assert(cur.drop_last() =~= pre);
                assert(cur.last() == v0.players[i as int]);
                assert(player_wf(v0.players[i as int]));
            }
            if self.players[i].in_play.len() > 0 {
                let card = self.players[i].in_play[0];
                proof {
                    assert(card.wf());
                    assert(card.rank >= 2);
                }
                if card.rank > greatest {
                    proof {
                        lemma_count_above_max(pre, card.rank as int);
                    }
                    greatest = card.rank;
                    winner = i;
                    is_draw = false;
                } else if card.rank == greatest {
                    is_draw = true;
                }
            }
            i = i + 1;
        }
        proof {
            assert(v0.players.take(n as int) =~= v0.players);
        }
        // Every revealed card joins the pot, in ascending player order.
        let mut i: usize = 0;
        while i < n
            invariant
                n == self.players@.len(),
                self.players@.len() == v0.players.len(),
                i <= n,
                forall|j: int|
                    0 <= j < i ==> (#[trigger] self.players@[j])@ == (PlayerView {
                        hand: v0.players[j].hand,
                        in_play: Seq::empty(),
                    }),
                forall|j: int| i <= j < n ==> (#[trigger] self.players@[j])@ == v0.players[j],
                self.pot@ == v0.pot + revealed_cards_of(v0.players.take(i as int)),
                self.state == v0.state,
                self.status == v0.status,
            decreases n - i,
        {
            self.pot.append(&mut self.players[i].in_play);
            proof {
                let pre = v0.players.take(i as int);
                let cur = v0.players.take(i + 1);
                assert(cur.drop_last() =~= pre);
                assert(cur.last() == v0.players[i as int]);
                assert((self.players@[i as int])@ =~= (PlayerView {
                    hand: v0.players[i as int].hand,
                    in_play: Seq::empty(),
                }));
            }
            i = i + 1;
        }
        proof {
            assert(v0.players.take(n as int) =~= v0.players);
        }
        let ghost pooled = v0.pot + revealed_cards_of(v0.players);
        let ghost cleared = clear_in_play(v0.players);
        proof {
            assert(self.pot@ == pooled);
            lemma_revealed_cards_wf(v0.players);
            lemma_cards_wf_concat(v0.pot, revealed_cards_of(v0.players));
            lemma_clear_total(v0.players);
            assert forall|p: int| 0 <= p < n implies self@.players[p] =~= cleared[p] by {}
            assert(self@.players =~= cleared);
        }
        if is_draw {
            self.status = Status::Draw;
            self.state = RoundState::Outcome;
            proof {
                assert(self@ =~~= resolved_view(v0, seed));
                assert forall|p: int|
                    0 <= p < n implies player_wf(#[trigger] self@.players[p]) by {
                    assert(player_wf(v0.players[p]));
                }
            }
        } else {
            proof {
                lemma_first_at_rank(v0.players, max_rank(v0.players));
            }
            self.status = Status::RoundWin(winner + 1);
            self.state = RoundState::Outcome;
            shuffle_in_place(&mut self.pot, seed);
            let ghost shuffled = self.pot@;
            self.players[winner].hand.append(&mut self.pot);
            proof {
                let w = winner_index(v0.players);
                assert(winner as int == w);
                let wp = PlayerView { hand: v0.players[w].hand + shuffled, in_play: Seq::empty() };
                assert((self.players@[w])@ =~= wp);
                assert forall|p: int|
                    0 <= p < n implies self@.players[p] =~= resolved_view(v0, seed).players[p] by {
                    if p != w {
                        assert(self@.players[p] == cleared[p]);
                    }
                }
                assert(self@ =~~= resolved_view(v0, seed));
                // Conservation: the winner's hand gains exactly the pooled
                // cards, which the shuffle only rearranged.
                lemma_players_total_update(cleared, w, wp);
                assert(player_total(cleared[w]) == v0.players[w].hand.len());
                // Well-formedness of the shuffled pool and the new hand.
                lemma_cards_wf_from(pooled, shuffled);
                assert forall|p: int|
                    0 <= p < n implies player_wf(#[trigger] self@.players[p]) by {
                    assert(player_wf(v0.players[p]));
                    if p == w {
                        lemma_cards_wf_concat(v0.players[w].hand, shuffled);
                    }
                }
            }
        }
    }

    /// The end-of-game test run on leaving Outcome: true when at most one
    /// player still holds cards in hand.
    pub fn check_end(&self) -> (b: bool)
        requires
            self@.wf(),
        ensures
            b == end_reached(self@),
    {
        let n = self.players.len();
        let mut empties: usize = 0;
        let mut i: usize = 0;
        while i < n
            invariant
                n == self@.players.len(),
                i <= n,
                empties <= i,
                empties as nat == empty_handed(self@.players.take(i as int)),
            decreases n - i,
        {
            proof {
                assert(self@.players.take(i + 1).drop_last() =~= self@.players.take(i as int));
                assert(self@.players.take(i + 1).last() == self@.players[i as int]);
            }
            if self.players[i].hand.len() == 0 {
                empties = empties + 1;
            }
            i = i + 1;
        }
        proof {
            assert(self@.players.take(n as int) =~= self@.players);
        }
        empties >= n - 1
    }

    /// The GameOver entry: announces the player with the largest remaining
    /// hand as the winner of the game, or nobody if every hand is empty.
    fn finish_game(&mut self)
        requires
            old(self)@.wf(),
            old(self)@.state == RoundState::Outcome,
        ensures
            final(self)@ == game_over_view(old(self)@),
            final(self)@.wf(),
            total_cards(final(self)@) == total_cards(old(self)@),
    {
        let ghost v0 = self@;
        let n = self.players.len();
        let mut best: usize = 0;
        let mut w: usize = 0;
        let mut i: usize = 0;
        while i < n
            invariant
                *self == *old(self),
                v0 == self@,
                n == v0.players.len(),
                i <= n,
                best as nat == max_hand(v0.players.take(i as int)),
                best > 0 ==> count_at_hand(v0.players.take(i as int), best as nat) >= 1 && w < i
                    && w as int == first_at_hand(v0.players.take(i as int), best as nat),
            decreases n - i,
        {
            let ghost pre = v0.players.take(i as int);
            let ghost cur = v0.players.take(i + 1);
            proof {
                assert(cur.drop_last() =~= pre);
                assert(cur.last() == v0.players[i as int]);
            }
            let l = self.players[i].hand.len();
            if l > best {
                proof {
                    lemma_count_above_max_hand(pre, l as nat);
                }
                best = l;
                w = i;
            }
            i = i + 1;
        }
        proof {
            assert(v0.players.take(n as int) =~= v0.players);
        }
        if best > 0 {
            self.status = Status::GameWin(w + 1);
        }
        self.state = RoundState::GameOver;
        proof {
            assert(self@ =~~= game_over_view(v0));
        }
    }

    /// The final ranking of a finished game: the players still holding
    /// cards, ranked by descending hand size.  The game ends only when at
    /// most one player holds cards, so the ranking is that player alone —
    /// the winner — or empty in the degenerate game where every hand is
    /// empty.
    pub fn ranking(&self) -> (r: Vec<usize>)
        requires
            self@.wf(),
            end_reached(self@),
        ensures
            match spec_winner(self@.players) {
                Some(w) => r@ == seq![w as usize],
                None => r@.len() == 0,
            },
    {
        let ghost v0 = self@;
        let n = self.players.len();
        let mut best: usize = 0;
        let mut w: usize = 0;
        let mut i: usize = 0;
        while i < n
            invariant
                v0 == self@,
                n == v0.players.len(),
                i <= n,
                best as nat == max_hand(v0.players.take(i as int)),
                best > 0 ==> count_at_hand(v0.players.take(i as int), best as nat) >= 1 && w < i
                    && w as int == first_at_hand(v0.players.take(i as int), best as nat),
            decreases n - i,
        {
            let ghost pre = v0.players.take(i as int);
            let ghost cur = v0.players.take(i + 1);
            proof {
                assert(cur.drop_last() =~= pre);
                assert(cur.last() == v0.players[i as int]);
            }
            let l = self.players[i].hand.len();
            if l > best {
                proof {
                    lemma_count_above_max_hand(pre, l as nat);
                }
                best = l;
                w = i;
            }
            i = i + 1;
        }
        proof {
            assert(v0.players.take(n as int) =~= v0.players);
        }
        let mut r: Vec<usize> = Vec::new();
        if best > 0 {
            r.push(w);
            proof {
                assert(r@ =~= seq![w as usize]);
            }
        }
        r
    }

    /// One advance signal: performs exactly one transition of the round
    /// state machine, with the entry actions of the state entered, and
    /// returns the new active state.
    ///
    /// The functional postcondition makes the engine deterministic and
    /// reproducible: the new state of the game is a function of the old
    /// state and the seed alone.  The card count stays 52 from the first
    /// deal on: a GameStart entry leaves exactly 52 cards, and every other
    /// transition conserves the total.
    pub fn advance(&mut self, seed: u64) -> (r: RoundState)
        requires
            old(self)@.wf(),
        ensures
            final(self)@ == spec_advance(old(self)@, seed),
            final(self)@.wf(),
            r == final(self)@.state,
            total_cards(final(self)@) == if old(self)@.state == RoundState::Begin || old(
                self,
            )@.state == RoundState::GameOver {
                52nat
            } else {
                total_cards(old(self)@)
            },
    {
        let st = self.state;
        match st {
            RoundState::Begin => self.game_start(seed),
            RoundState::GameStart => self.reveal_all(),
            RoundState::Draw => self.resolve_battle(seed),
            RoundState::Outcome => {
                if self.check_end() {
                    self.finish_game();
                } else {
                    self.reveal_all();
                }
            },
            RoundState::GameOver => self.game_start(seed),
        }
        self.state
    }
}

} // verus!
