//! Deck shuffling and distribution.
//!
//! Shuffling goes through the rand crate behind a trusted wrapper; the
//! permutation a seed produces is named `shuffle_of`, so that a fixed seed
//! gives a reproducible deal.  Dealing is round-robin: card `i` of the
//! shuffled deck goes to player `i mod n`, in order.

use vstd::prelude::*;
use vstd::arithmetic::div_mod::{
    lemma_div_pos_is_pos, lemma_fundamental_div_mod, lemma_mod_multiples_vanish, lemma_small_mod,
};
use crate::card::{Card, build_deck, cards_wf, full_deck};

verus! {

/// The errors of game setup.
#[derive(Clone, Copy, Debug, PartialEq, Eq, Structural)]
pub enum GameError {
    /// A distribution was requested for fewer than two players.
    InvalidPlayerCount,
}

/// The permutation that shuffling with `seed` applies to `cards`: the result
/// of seeding a pseudorandom generator from `seed` and shuffling, which
/// depends on the seed and the cards alone.
pub uninterp spec fn shuffle_of(seed: u64, cards: Seq<Card>) -> Seq<Card>;

/// Relies on rand's `SliceRandom::shuffle` with a `StdRng` seeded by
/// `SeedableRng::seed_from_u64`: it permutes the slice in place, choosing the
/// permutation from the seeded generator alone, so the result is a
/// rearrangement of the same cards determined by the seed and the input.
#[verifier::external_body]
pub(crate) fn shuffle_in_place(cards: &mut Vec<Card>, seed: u64)
    ensures
        final(cards)@ == shuffle_of(seed, old(cards)@),
        final(cards)@.len() == old(cards)@.len(),
        final(cards)@.to_multiset() == old(cards)@.to_multiset(),
        forall|i: int|
            0 <= i < final(cards)@.len() ==> old(cards)@.contains(final(cards)@[i]),
{
    let mut rng = <rand::rngs::StdRng as rand::SeedableRng>::seed_from_u64(seed);
    rand::seq::SliceRandom::shuffle(cards.as_mut_slice(), &mut rng);
}

/// Builds the full deck and shuffles it with the given seed: the same seed
/// always yields the same order.
pub fn initial_cards(seed: u64) -> (cards: Vec<Card>)
    ensures
        cards@ == shuffle_of(seed, full_deck()),
        cards@.len() == 52,
        cards@.to_multiset() == full_deck().to_multiset(),
        forall|i: int| 0 <= i < cards@.len() ==> full_deck().contains(cards@[i]),
{
    let mut cards = build_deck();
    shuffle_in_place(&mut cards, seed);
    cards
}

/// The hand that player `p` of `n` receives when `deck` is dealt round-robin:
/// the cards at positions congruent to `p` modulo `n`, in deck order.
pub open spec fn dealt_hand(deck: Seq<Card>, n: int, p: int) -> Seq<Card>
    recommends
        n >= 1,
    decreases deck.len(),
{
    if deck.len() == 0 {
        Seq::empty()
    } else if (deck.len() - 1) % n == p {
        dealt_hand(deck.drop_last(), n, p).push(deck.last())
    } else {
        dealt_hand(deck.drop_last(), n, p)
    }
}

/// The number of cards that players `0..k` together receive from `deck`.
pub open spec fn dealt_total(deck: Seq<Card>, n: int, k: int) -> nat
    decreases k,
{
    if k <= 0 {
        0
    } else {
        dealt_total(deck, n, k - 1) + dealt_hand(deck, n, k - 1).len()
    }
}

proof fn lemma_dealt_total_step(deck: Seq<Card>, n: int, k: int)
    requires
        n >= 1,
        deck.len() >= 1,
        0 <= k <= n,
    ensures
        dealt_total(deck, n, k) == dealt_total(deck.drop_last(), n, k) + if (deck.len() - 1) % n
            < k {
            1int
        } else {
            0int
        },
    decreases k,
{
    if k > 0 {
        lemma_dealt_total_step(deck, n, k - 1);
    }
}

/// Dealing conserves the cards: the hands of all `n` players together hold
/// exactly the cards of the deck.
pub proof fn lemma_dealt_total(deck: Seq<Card>, n: int)
    requires
        n >= 1,
    ensures
        dealt_total(deck, n, n) == deck.len(),
    decreases deck.len(),
{
    if deck.len() == 0 {
        lemma_dealt_total_zero(deck, n, n);
    } else {
        lemma_dealt_total_step(deck, n, n);
        lemma_dealt_total(deck.drop_last(), n);
        assert(0 <= (deck.len() - 1) % n < n);
    }
}

proof fn lemma_dealt_total_zero(deck: Seq<Card>, n: int, k: int)
    requires
        deck.len() == 0,
    ensures
        dealt_total(deck, n, k) == 0,
    decreases k,
{
    if k > 0 {
        lemma_dealt_total_zero(deck, n, k - 1);
    }
}

/// The flat form of round-robin dealing: the hand of player `p` holds, in
/// order, exactly the cards at deck positions `p`, `p + n`, `p + 2n`, and so
/// on — card `i` of the deck goes to player `i mod n` — and the hand ends
/// only where the deck does.
pub proof fn lemma_dealt_hand_index(deck: Seq<Card>, n: int, p: int)
    requires
        1 <= n,
        0 <= p < n,
    ensures
        deck.len() <= p + dealt_hand(deck, n, p).len() * n,
        dealt_hand(deck, n, p).len() > 0 ==> p + (dealt_hand(deck, n, p).len() - 1) * n
            < deck.len(),
        forall|j: int|
            0 <= j < dealt_hand(deck, n, p).len() ==> #[trigger] dealt_hand(deck, n, p)[j]
                == deck[p + j * n],
    decreases deck.len(),
{
    let h = dealt_hand(deck, n, p);
    if deck.len() > 0 {
        let d0 = deck.drop_last();
        let h0 = dealt_hand(d0, n, p);
        let len = deck.len() as int;
        let k = h0.len() as int;
        lemma_dealt_hand_index(d0, n, p);
        // h0 covers positions up to but not beyond the shortened deck:
        // len - 1 <= p + k * n < len - 1 + n.
        assert(d0.len() == len - 1);
        assert(len - 1 <= p + k * n);
        if k > 0 {
            assert(h0[k - 1] == d0[p + (k - 1) * n]);
            assert(p + (k - 1) * n < len - 1);
            assert((k - 1) * n + n == k * n) by (nonlinear_arith);
            assert(p + k * n < len - 1 + n);
        } else {
            assert(k * n == 0) by (nonlinear_arith)
                requires
                    k == 0,
            ;
            assert(p + k * n < len - 1 + n);
        }
        if (len - 1) % n == p {
            // The next round-robin position for player p is exactly the
            // last card of the deck.
            lemma_fundamental_div_mod(len - 1, n);
            lemma_div_pos_is_pos(len - 1, n);
            let q = (len - 1) / n;
            assert(len - 1 == n * q + p);
            assert(k == q) by (nonlinear_arith)
                requires
                    n >= 1,
                    n * q <= n * k,
                    n * k < n * q + n,
            ;
            assert(p + k * n == len - 1);
            assert(h == h0.push(deck.last()));
            assert forall|j: int| 0 <= j < h.len() implies #[trigger] h[j] == deck[p + j
                * n] by {
                if j < k {
                    assert(h[j] == h0[j]);
                    assert(h0[j] == d0[p + j * n]);
                    assert(j * n <= (k - 1) * n) by (nonlinear_arith)
                        requires
                            j <= k - 1,
                            n >= 1,
                    ;
                    assert(p + j * n < d0.len());
                    assert(d0[p + j * n] == deck[p + j * n]);
                } else {
                    assert(j == k);
                    assert(h[j] == deck.last());
                }
            }
            assert(h.len() * n == k * n + n) by (nonlinear_arith)
                requires
                    h.len() == k + 1,
            ;
        } else {
            // The last card of the deck belongs to another player: player
            // p's next position lies strictly beyond the deck.
            if len - 1 == p + k * n {
                lemma_mod_multiples_vanish(k, p, n);
                lemma_small_mod(p as nat, n as nat);
                assert((n * k + p) % n == p % n);
                assert(false);
            }
            assert forall|j: int| 0 <= j < h.len() implies #[trigger] h[j] == deck[p + j
                * n] by {
                assert(h0[j] == d0[p + j * n]);
                assert(j * n <= (k - 1) * n) by (nonlinear_arith)
                    requires
                        j <= k - 1,
                        n >= 1,
                ;
                assert(p + j * n < d0.len());
                assert(h[j] == h0[j]);
                assert(d0[p + j * n] == deck[p + j * n]);
            }
        }
    }
}

/// A hand dealt from a well-formed deck is well formed.
pub proof fn lemma_dealt_hand_wf(deck: Seq<Card>, n: int, p: int)
    requires
        cards_wf(deck),
    ensures
        cards_wf(dealt_hand(deck, n, p)),
    decreases deck.len(),
{
    if deck.len() > 0 {
        assert(cards_wf(deck.drop_last()));
        lemma_dealt_hand_wf(deck.drop_last(), n, p);
        let h = dealt_hand(deck, n, p);
        let h0 = dealt_hand(deck.drop_last(), n, p);
        if (deck.len() - 1) % n == p {
            assert forall|i: int| 0 <= i < h.len() implies (#[trigger] h[i]).wf() by {
                if i < h0.len() {
                    assert(h[i] == h0[i]);
                } else {
                    assert(h[i] == deck.last());
                }
            }
        }
    }
}

/// Deals the deck round-robin to `num_players` players: card `i` goes to
/// player `i mod num_players`, each hand keeping deck order, with index 0 the
/// next card to reveal.  Fewer than two players is rejected before any work.
pub fn distribute(deck: &Vec<Card>, num_players: usize) -> (r: Result<
    Vec<Vec<Card>>,
    GameError,
>)
    ensures
        match r {
            Ok(hands) => num_players >= 2 && hands@.len() == num_players && forall|p: int|
                0 <= p < num_players ==> (#[trigger] hands@[p])@ == dealt_hand(
                    deck@,
                    num_players as int,
                    p,
                ),
            Err(e) => num_players < 2 && e == GameError::InvalidPlayerCount,
        },
{
    if num_players < 2 {
        return Err(GameError::InvalidPlayerCount);
    }
    let mut hands: Vec<Vec<Card>> = Vec::new();
    while hands.len() < num_players
        invariant
            hands@.len() <= num_players,
            forall|p: int| 0 <= p < hands@.len() ==> (#[trigger] hands@[p])@ == Seq::<
                Card,
            >::empty(),
        decreases num_players - hands.len(),
    {
        hands.push(Vec::new());
    }
    let n = num_players;
    let mut i: usize = 0;
    while i < deck.len()
        invariant
            n == num_players,
            2 <= n,
            i <= deck@.len(),
            hands@.len() == n,
            forall|p: int| 0 <= p < n ==> (#[trigger] hands@[p])@ == dealt_hand(
                deck@.take(i as int),
                n as int,
                p,
            ),
        decreases deck@.len() - i,
    {
        let card = deck[i];
        let target = i % n;
        hands[target].push(card);
        proof {
            let pre = deck@.take(i as int);
            let cur = deck@.take(i + 1);
            assert(cur.drop_last() =~= pre);
            assert(cur.last() == deck@[i as int]);
            assert(forall|p: int|
                0 <= p < n && p != target ==> dealt_hand(cur, n as int, p) == dealt_hand(
                    pre,
                    n as int,
                    p,
                ));
            assert(dealt_hand(cur, n as int, target as int) == dealt_hand(
                pre,
                n as int,
                target as int,
            ).push(deck@[i as int]));
        }
        i = i + 1;
    }
    proof {
        assert(deck@.take(deck@.len() as int) =~= deck@);
    }
    Ok(hands)
}

} // verus!
