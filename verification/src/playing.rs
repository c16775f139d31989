//! The state of a game and the moves that change it.

use vstd::prelude::*;

use crate::serialization::{TransferGame, TransferGameView};
use crate::{shuffle, spec_shuffled, valid_draws, Carta, Coll, Numero, Torn};

verus! {

/// The state of a game between players A and B.
#[derive(Debug, Clone)]
pub struct Game {
    /// Les cartes cara cap avall
    pub uncovered: Vec<Carta>,

    /// A qui li toca
    pub torn: Torn,

    pub a_hand: Vec<Carta>,
    pub b_hand: Vec<Carta>,

    pub a_won_cards: Vec<Carta>,
    pub b_won_cards: Vec<Carta>,

    pub atot: Coll,
}

/// A game seen as sequences of cards.
pub struct GameView {
    pub uncovered: Seq<Carta>,
    pub torn: Torn,
    pub a_hand: Seq<Carta>,
    pub b_hand: Seq<Carta>,
    pub a_won_cards: Seq<Carta>,
    pub b_won_cards: Seq<Carta>,
    pub atot: Coll,
}

impl View for Game {
    type V = GameView;

    open spec fn view(&self) -> GameView {
        GameView {
            uncovered: self.uncovered@,
            torn: self.torn,
            a_hand: self.a_hand@,
            b_hand: self.b_hand@,
            a_won_cards: self.a_won_cards@,
            b_won_cards: self.b_won_cards@,
            atot: self.atot,
        }
    }
}

#[derive(Debug, Clone, Copy)]
pub enum GameError {
    PlayerDoesNotHaveCard,
}

/// The suits in the order in which the deck is laid out before shuffling.
pub open spec fn deck_suit(i: int) -> Coll {
    if i == 0 {
        Coll::Copes
    } else if i == 1 {
        Coll::Espases
    } else if i == 2 {
        Coll::Garrots
    } else {
        Coll::Monedes
    }
}

/// The forty cards, suit by suit (copes, espases, garrots, monedes) and,
/// within a suit, from the ace to the king.
pub open spec fn spec_full_deck() -> Seq<Carta> {
    Seq::new(40, |i: int| Carta { coll: deck_suit(i / 10), valor: Numero::spec_all()[i % 10] })
}

/// The game that dealing `deck` starts: A takes the last three cards (the
/// last one first), then B the three before them, and the rest stays face
/// down; the trump suit is that of the first card left face down.
pub open spec fn spec_dealt(deck: Seq<Carta>) -> GameView {
    let n = deck.len() as int;
    GameView {
        uncovered: deck.subrange(0, n - 6),
        torn: Torn::A,
        a_hand: seq![deck[n - 1], deck[n - 2], deck[n - 3]],
        b_hand: seq![deck[n - 4], deck[n - 5], deck[n - 6]],
        a_won_cards: Seq::empty(),
        b_won_cards: Seq::empty(),
        atot: deck[0].coll,
    }
}

/// Whether a trick goes to player A, given whose turn it was and whether
/// the first card played won it.
pub open spec fn trick_goes_to_a(torn: Torn, first_won: bool) -> bool {
    (torn == Torn::A && first_won) || (torn == Torn::B && !first_won)
}

/// Whether the first card of a trick beats the second, given the trump suit.
/// The rule is not worked out yet: the first card always wins.
pub open spec fn spec_first_wins_basa(first: Carta, second: Carta, atot: Coll) -> bool {
    true
}

/// The forty cards, in the order of `spec_full_deck`.
fn ordered_deck() -> (deck: Vec<Carta>)
    ensures
        deck@ == spec_full_deck(),
{
    let mut deck: Vec<Carta> = Vec::new();
    let colls = [Coll::Copes, Coll::Espases, Coll::Garrots, Coll::Monedes];
    let numeros = Numero::ALL;
    assert(numeros@ =~= Numero::spec_all());
    let mut s: usize = 0;
    while s < 4
        invariant
            s <= 4,
            colls@ == seq![Coll::Copes, Coll::Espases, Coll::Garrots, Coll::Monedes],
            numeros@ == Numero::spec_all(),
            deck@.len() == 10 * s,
            forall|k: int| 0 <= k < deck@.len() ==> #[trigger] deck@[k] == spec_full_deck()[k],
        decreases 4 - s,
    {
        let coll = colls[s];
        let mut v: usize = 0;
        while v < 10
            invariant
                s < 4,
                v <= 10,
                coll == deck_suit(s as int),
                numeros@ == Numero::spec_all(),
                deck@.len() == 10 * s + v,
                forall|k: int| 0 <= k < deck@.len() ==> #[trigger] deck@[k] == spec_full_deck()[k],
            decreases 10 - v,
        {
            deck.push(Carta { coll, valor: numeros[v] });
            proof {
                let k = 10 * s + v;
                assert(k / 10 == s as int);
                assert(k % 10 == v as int);
            }
            v = v + 1;
        }
        s = s + 1;
    }
    assert(deck@ =~= spec_full_deck());
    deck
}

/// Whether the first card of a trick beats the second.
fn first_wins_basa(first: Carta, second: Carta, atot: Coll) -> (r: bool)
    ensures
        r == spec_first_wins_basa(first, second, atot),
{
    true
}

impl Game {
    /// Deals a forty-card `deck`: A takes the last three cards, B the
    /// three before them, and the trump suit is that of the first card left.
    pub fn deal(deck: Vec<Carta>) -> (g: Self)
        requires
            deck@.len() == 40,
        ensures
            g@ == spec_dealt(deck@),
    {
        let ghost d = deck@;
        let mut uncovered = deck;
        let mut a_cards: Vec<Carta> = Vec::new();
        let mut b_cards: Vec<Carta> = Vec::new();

        for i in 0..3
            invariant
                d.len() == 40,
                uncovered@ == d.subrange(0, 40 - i),
                a_cards@.len() == i,
                forall|k: int| 0 <= k < i ==> #[trigger] a_cards@[k] == d[39 - k],
        {
            a_cards.push(uncovered.pop().unwrap());
        }

        for i in 0..3
            invariant
                d.len() == 40,
                uncovered@ == d.subrange(0, 37 - i),
                b_cards@.len() == i,
                forall|k: int| 0 <= k < i ==> #[trigger] b_cards@[k] == d[36 - k],
        {
            b_cards.push(uncovered.pop().unwrap());
        }

        assert(a_cards@ =~= seq![d[39], d[38], d[37]]);
        assert(b_cards@ =~= seq![d[36], d[35], d[34]]);
        let g = Game {
            atot: uncovered[0].coll,
            uncovered,
            torn: Torn::A,
            a_hand: a_cards,
            b_hand: b_cards,
            a_won_cards: Vec::new(),
            b_won_cards: Vec::new(),
        };
        assert(g@.a_won_cards =~= Seq::<Carta>::empty());
        assert(g@.b_won_cards =~= Seq::<Carta>::empty());
        g
    }

    /// A new game: the forty cards are shuffled and then dealt as `deal`
    /// deals them. Together the hands and the face-down cards are the
    /// whole deck, each card once.
    pub fn new() -> (g: Self)
        ensures
            exists|deck: Seq<Carta>|
                deck.to_multiset() == spec_full_deck().to_multiset() && g@ == #[trigger] spec_dealt(deck),
            (g@.a_hand + g@.b_hand + g@.uncovered).to_multiset() == spec_full_deck().to_multiset(),
            g@.uncovered.len() == 34,
            g@.a_hand.len() == 3,
            g@.b_hand.len() == 3,
            exists|draws: Seq<usize>|
                valid_draws(draws, 40) && g@ == #[trigger] spec_dealt(spec_shuffled(spec_full_deck(), draws)),
    {
        let deck = ordered_deck();
        let shuffled = shuffle(deck);
        let ghost s = shuffled@;
        let g = Self::deal(shuffled);
        proof {
            lemma_deal_keeps_cards(s);
            let d = choose|d: Seq<usize>| valid_draws(d, 40) && s == #[trigger] spec_shuffled(spec_full_deck(), d);
            assert(g@ == spec_dealt(spec_shuffled(spec_full_deck(), d)));
        }
        g
    }

    /// La carta que marca l'atot (el coll més poderòs)
    pub fn atot(&self) -> (r: Option<Carta>)
        ensures
            r == (if self.uncovered@.len() > 0 { Some(self.uncovered@[0]) } else { None::<Carta> }),
    {
        if self.uncovered.len() > 0 {
            Some(self.uncovered[0])
        } else {
            None
        }
    }

    /// Whether the game has ended. The end is not detected yet: a game
    /// never ends.
    pub fn is_over(&self) -> (r: bool)
        ensures
            r == false,
    {
        false
    }

    /// Plays a trick: `first` is the card of the player whose turn it is,
    /// `second` the other player's answer. A trick that goes to A adds both
    /// cards, in that order, to A's hand. Awarding a trick to B is not
    /// possible yet, so such a trick is not accepted.
    pub fn play_cards(&mut self, first: Carta, second: Carta)
        requires
            trick_goes_to_a(old(self).torn, spec_first_wins_basa(first, second, old(self).atot)),
        ensures
            final(self)@.a_hand == old(self)@.a_hand.push(first).push(second),
            final(self)@.uncovered == old(self)@.uncovered,
            final(self)@.torn == old(self)@.torn,
            final(self)@.b_hand == old(self)@.b_hand,
            final(self)@.a_won_cards == old(self)@.a_won_cards,
            final(self)@.b_won_cards == old(self)@.b_won_cards,
            final(self)@.atot == old(self)@.atot,
    {
        let first_won = first_wins_basa(first, second, self.atot);
        match (self.torn, first_won) {
            (Torn::A, true) | (Torn::B, false) => {
                self.a_hand.push(first);
                self.a_hand.push(second);
            },
            (Torn::A, false) | (Torn::B, true) => {
                assert(false);
            },
        }
    }
}

/// The hand of the player whose turn it is.
pub open spec fn spec_turn_hand(g: GameView) -> Seq<Carta> {
    if g.torn == Torn::A {
        g.a_hand
    } else {
        g.b_hand
    }
}

/// The trump card: the first card left face down, if any.
pub open spec fn spec_atot_card(g: GameView) -> Option<Carta> {
    if g.uncovered.len() > 0 {
        Some(g.uncovered[0])
    } else {
        None
    }
}

/// The player who plays after `t`.
pub open spec fn spec_other(t: Torn) -> Torn {
    match t {
        Torn::A => Torn::B,
        Torn::B => Torn::A,
    }
}

/// Where the server stands in collecting the two cards of a trick.
#[derive(Debug, Clone, Copy, PartialEq, Eq, Structural)]
pub enum TurnStep {
    /// Waiting for the card of the player whose turn it is.
    AwaitFirst,
    /// The first card is known; waiting for the answer of the other player.
    AwaitSecond(Carta),
    /// Both cards are known: the trick can be played.
    Complete(Carta, Carta),
}

/// The step that follows `step` once the card `answer` has come in: an
/// answer is taken only when the hand of the player whose turn it is holds
/// it; otherwise the server asks again.
pub open spec fn spec_next_turn_step(g: GameView, step: TurnStep, answer: Carta) -> TurnStep {
    match step {
        TurnStep::AwaitFirst => if spec_turn_hand(g).contains(answer) {
            TurnStep::AwaitSecond(answer)
        } else {
            TurnStep::AwaitFirst
        },
        TurnStep::AwaitSecond(first) => if spec_turn_hand(g).contains(answer) {
            TurnStep::Complete(first, answer)
        } else {
            TurnStep::AwaitSecond(first)
        },
        TurnStep::Complete(first, second) => TurnStep::Complete(first, second),
    }
}

/// A trick only moves on when the card that came in is in the hand of the
/// player whose turn it is: any other answer leaves the step as it was.
pub proof fn lemma_turn_step_needs_turn_card(g: GameView, step: TurnStep, answer: Carta)
    ensures
        spec_next_turn_step(g, step, answer) != step ==> spec_turn_hand(g).contains(answer),
        (step is Complete) ==> spec_next_turn_step(g, step, answer) == step,
{
}

/// The hand a trick is checked against is that of the player whose turn
/// it is: A's hand on A's turn, B's hand on B's turn.
pub proof fn lemma_turn_hand_is_the_players_hand(g: GameView)
    ensures
        g.torn == Torn::A ==> spec_turn_hand(g) == g.a_hand,
        g.torn == Torn::B ==> spec_turn_hand(g) == g.b_hand,
{
}

/// On B's turn, the first card of a trick is taken exactly when it is in
/// B's hand, and on A's turn exactly when it is in A's hand; the second
/// card is checked against the same hand.
pub proof fn lemma_turn_step_checks_the_players_hand(g: GameView, answer: Carta, first: Carta)
    ensures
        g.torn == Torn::B ==> (spec_next_turn_step(g, TurnStep::AwaitFirst, answer)
            == TurnStep::AwaitSecond(answer) <==> g.b_hand.contains(answer)),
        g.torn == Torn::A ==> (spec_next_turn_step(g, TurnStep::AwaitFirst, answer)
            == TurnStep::AwaitSecond(answer) <==> g.a_hand.contains(answer)),
        g.torn == Torn::B ==> (spec_next_turn_step(g, TurnStep::AwaitSecond(first), answer)
            == TurnStep::Complete(first, answer) <==> g.b_hand.contains(answer)),
        g.torn == Torn::A ==> (spec_next_turn_step(g, TurnStep::AwaitSecond(first), answer)
            == TurnStep::Complete(first, answer) <==> g.a_hand.contains(answer)),
{
}

/// For now the first card of a trick always wins it, whatever the two
/// cards and the trump suit: so every trick played on A's turn goes to A,
/// and every trick played on B's turn would go to A too.
pub proof fn lemma_first_card_always_wins(first: Carta, second: Carta, atot: Coll, torn: Torn)
    ensures
        spec_first_wins_basa(first, second, atot),
        trick_goes_to_a(torn, spec_first_wins_basa(first, second, atot)) <==> torn == Torn::A,
{
}

/// Whether `hand` holds `c`.
fn hand_contains(hand: &Vec<Carta>, c: Carta) -> (r: bool)
    ensures
        r == hand@.contains(c),
{
    let mut i: usize = 0;
    while i < hand.len()
        invariant
            i <= hand@.len(),
            forall|k: int| 0 <= k < i ==> hand@[k] != c,
        decreases hand@.len() - i,
    {
        if hand[i] == c {
            assert(hand@[i as int] == c);
            return true;
        }
        i = i + 1;
    }
    false
}

impl Game {
    /// Whether the hand of the player whose turn it is holds `c`.
    pub fn turn_hand_contains(&self, c: Carta) -> (r: bool)
        ensures
            r == spec_turn_hand(self@).contains(c),
            self.torn == Torn::A ==> r == self.a_hand@.contains(c),
            self.torn == Torn::B ==> r == self.b_hand@.contains(c),
    {
        match self.torn {
            Torn::A => hand_contains(&self.a_hand, c),
            Torn::B => hand_contains(&self.b_hand, c),
        }
    }

    /// The state a player is sent when asked for a card: the trump card,
    /// the cards of B's hand, and the card already on the table, if any.
    pub fn player_state(&self, table_card: Option<Carta>) -> (r: TransferGame)
        ensures
            r@ == (TransferGameView {
                carta_atot: spec_atot_card(self@),
                your_cards: self@.b_hand,
                table_card,
            }),
    {
        let your_cards = self.b_hand.clone();
        assert(your_cards@ =~= self.b_hand@);
        TransferGame { carta_atot: self.atot(), your_cards, table_card }
    }

    /// The step of a trick that follows `step` once `answer` has come in.
    pub fn next_turn_step(&self, step: TurnStep, answer: Carta) -> (r: TurnStep)
        ensures
            r == spec_next_turn_step(self@, step, answer),
    {
        match step {
            TurnStep::AwaitFirst => {
                if self.turn_hand_contains(answer) {
                    TurnStep::AwaitSecond(answer)
                } else {
                    TurnStep::AwaitFirst
                }
            },
            TurnStep::AwaitSecond(first) => {
                if self.turn_hand_contains(answer) {
                    TurnStep::Complete(first, answer)
                } else {
                    TurnStep::AwaitSecond(first)
                }
            },
            TurnStep::Complete(first, second) => TurnStep::Complete(first, second),
        }
    }

    /// Whether `play_cards` accepts the trick `first`, `second` now: only a
    /// trick that goes to A can be played yet.
    pub fn can_play_cards(&self, first: Carta, second: Carta) -> (r: bool)
        ensures
            r == trick_goes_to_a(self.torn, spec_first_wins_basa(first, second, self.atot)),
            r == (self.torn == Torn::A),
    {
        let first_won = first_wins_basa(first, second, self.atot);
        match self.torn {
            Torn::A => first_won,
            Torn::B => !first_won,
        }
    }

    /// Hands the turn to the other player.
    pub fn pass_turn(&mut self)
        ensures
            final(self)@.torn == spec_other(old(self)@.torn),
            final(self)@.uncovered == old(self)@.uncovered,
            final(self)@.a_hand == old(self)@.a_hand,
            final(self)@.b_hand == old(self)@.b_hand,
            final(self)@.a_won_cards == old(self)@.a_won_cards,
            final(self)@.b_won_cards == old(self)@.b_won_cards,
            final(self)@.atot == old(self)@.atot,
    {
        self.torn = match self.torn {
            Torn::A => Torn::B,
            Torn::B => Torn::A,
        };
    }
}

impl Default for Game {
    fn default() -> (g: Self)
        ensures
            exists|deck: Seq<Carta>|
                deck.to_multiset() == spec_full_deck().to_multiset() && g@ == #[trigger] spec_dealt(deck),
            (g@.a_hand + g@.b_hand + g@.uncovered).to_multiset() == spec_full_deck().to_multiset(),
    {
        Self::new()
    }
}

/// Dealing a forty-card deck loses no card and adds none: the two hands and
/// the face-down cards together hold exactly the cards of the deck.
pub proof fn lemma_deal_keeps_cards(deck: Seq<Carta>)
    requires
        deck.len() == 40,
    ensures
        ({
            let g = spec_dealt(deck);
            (g.a_hand + g.b_hand + g.uncovered).to_multiset() == deck.to_multiset()
        }),
{
    broadcast use vstd::seq_lib::lemma_multiset_commutative;
    broadcast use vstd::multiset::group_multiset_axioms;

    let g = spec_dealt(deck);
    let top = deck.subrange(34, 40);
    assert(g.a_hand + g.b_hand =~= top.reverse());
    top.lemma_reverse_to_multiset();
    assert(deck =~= g.uncovered + top);
    assert((g.a_hand + g.b_hand + g.uncovered).to_multiset() =~= (g.a_hand + g.b_hand).to_multiset().add(g.uncovered.to_multiset()));
    assert(deck.to_multiset() =~= g.uncovered.to_multiset().add(top.to_multiset()));
}

/// The forty cards of the deck are all different.
pub proof fn lemma_full_deck_distinct()
    ensures
        spec_full_deck().no_duplicates(),
        spec_full_deck().len() == 40,
{
    let d = spec_full_deck();
    assert forall|i: int, j: int| 0 <= i < 40 && 0 <= j < 40 && i != j implies d[i] != d[j] by {
        if d[i] == d[j] {
            assert(i / 10 == j / 10);
            assert(i % 10 == j % 10);
        }
    }
}

} // verus!
