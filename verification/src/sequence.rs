use vstd::prelude::*;

use rand::seq::SliceRandom;

use vstd::multiset::group_multiset_axioms;
use vstd::multiset::Multiset;
use vstd::multiset::lemma_multiset_empty_len;
use vstd::seq_lib::group_to_multiset_ensures;
use vstd::seq_lib::lemma_multiset_commutative;

use crate::card::{Card, Color, MAX_CARD_VALUE, MIN_CARD_VALUE};

verus! {

/// One run of card values for a color: `MIN_CARD_VALUE` up to
/// `MAX_CARD_VALUE`, once each.
pub open spec fn value_run(color: Color) -> Seq<Card> {
    Seq::new(
        (MAX_CARD_VALUE - MIN_CARD_VALUE + 1) as nat,
        |i: int| Card { value: (MIN_CARD_VALUE + i) as u8, color },
    )
}

/// The unshuffled deck of one color: every value appears twice.
pub open spec fn color_deck(color: Color) -> Seq<Card> {
    value_run(color) + value_run(color)
}

/// The cards one player draws from: the decks of that player's two
/// colors, as a multiset, since the order is randomized.
pub open spec fn player_deck_multiset(color_1: Color, color_2: Color) -> Multiset<Card> {
    color_deck(color_1).to_multiset().add(color_deck(color_2).to_multiset())
}

/// The full deck of the standard game: two players, each owning one
/// disjoint pair of the four colors.
pub open spec fn full_deck_multiset() -> Multiset<Card> {
    player_deck_multiset(Color::Salmon, Color::Gold).add(
        player_deck_multiset(Color::Aquamarine, Color::SeaGreen),
    )
}

/// The four colors of the standard game, in their fixed order; the
/// colors at positions 0 and 1 belong to the first player, those at 2
/// and 3 to the second.
pub open spec fn standard_colors() -> Seq<Color> {
    seq![Color::Salmon, Color::Gold, Color::Aquamarine, Color::SeaGreen]
}

/// The combined deck of the first `p` color pairs of `colors`.
pub open spec fn paired_decks_multiset(colors: Seq<Color>, p: int) -> Multiset<Card>
    decreases p,
{
    if p <= 0 {
        Multiset::empty()
    } else {
        paired_decks_multiset(colors, p - 1).add(
            player_deck_multiset(colors[2 * (p - 1)], colors[2 * (p - 1) + 1]),
        )
    }
}

/// Error for a generator configuration whose color count cannot be
/// split into pairs, one pair per player. Rejected once, before a round
/// starts, never discovered mid-round.
#[derive(Clone, Copy, Debug, PartialEq, Eq, Structural)]
pub struct ConfigError;

/// The ordered list of cards to be drawn, one per successful placement,
/// shared by all players. Built once per round; its composition is
/// fixed, only the order is randomized.
#[derive(Debug)]
pub struct CardSequence {
    pub cards: Vec<Card>,
}

impl View for CardSequence {
    type V = Seq<Card>;

    open spec fn view(&self) -> Seq<Card> {
        self.cards@
    }
}

/// Relies on rand's `SliceRandom::shuffle` with `rand::thread_rng`: a
/// Fisher-Yates shuffle permutes the slice in place, so exactly the same
/// cards remain, in an order this contract leaves open.
#[verifier::external_body]
fn shuffle_cards(cards: &mut Vec<Card>)
    ensures
        final(cards)@.to_multiset() == old(cards)@.to_multiset(),
        final(cards)@.len() == old(cards)@.len(),
{
    let mut rng = rand::thread_rng();
    cards.shuffle(&mut rng);
}

/// Build the deck of one color, two copies of each value, and shuffle it.
fn generate_color(color: Color) -> (r: Vec<Card>)
    ensures
        r@.to_multiset() == color_deck(color).to_multiset(),
        r@.len() == color_deck(color).len(),
{
    let mut cards: Vec<Card> = Vec::new();
    let mut v: u8 = MIN_CARD_VALUE;
    while v <= MAX_CARD_VALUE
        invariant
            MIN_CARD_VALUE <= v <= MAX_CARD_VALUE + 1,
            cards@ == value_run(color).take(v - MIN_CARD_VALUE),
        decreases MAX_CARD_VALUE + 1 - v,
    {
        cards.push(Card { value: v, color });
        assert(cards@ =~= value_run(color).take(v + 1 - MIN_CARD_VALUE));
        v = v + 1;
    }
    assert(cards@ =~= value_run(color));
    let mut v: u8 = MIN_CARD_VALUE;
    while v <= MAX_CARD_VALUE
        invariant
            MIN_CARD_VALUE <= v <= MAX_CARD_VALUE + 1,
            cards@ == value_run(color) + value_run(color).take(v - MIN_CARD_VALUE),
        decreases MAX_CARD_VALUE + 1 - v,
    {
        cards.push(Card { value: v, color });
        assert(cards@ =~= value_run(color) + value_run(color).take(v + 1 - MIN_CARD_VALUE));
        v = v + 1;
    }
    assert(cards@ =~= color_deck(color));
    shuffle_cards(&mut cards);
    cards
}

impl CardSequence {
    /// Generate one player's private draw sequence: the decks of that
    /// player's two colors, concatenated and shuffled uniformly.
    pub fn generate_player_sequence(color_1: Color, color_2: Color) -> (r: CardSequence)
        ensures
            r@.to_multiset() == player_deck_multiset(color_1, color_2),
            r@.len() == 36,
    {
        let mut cards = generate_color(color_1);
        let mut second = generate_color(color_2);
        let ghost a = cards@;
        let ghost b = second@;
        cards.append(&mut second);
        proof {
            lemma_multiset_commutative(a, b);
        }
        shuffle_cards(&mut cards);
        CardSequence { cards }
    }

    /// Generate a draw sequence for any evenly sized list of colors:
    /// consecutive pairs of colors form one player each; every player's
    /// private sequence is generated and shuffled, and the private
    /// sequences are interleaved round-robin by index, so play
    /// alternates between the players one draw at a time. An odd color
    /// count cannot be paired and is rejected before the round starts.
    pub fn generate_for_colors(colors: &Vec<Color>) -> (r: Result<CardSequence, ConfigError>)
        ensures
            r is Ok <==> colors@.len() % 2 == 0,
            r matches Ok(s) ==> {
                &&& s@.to_multiset() == paired_decks_multiset(colors@, colors@.len() as int / 2)
                &&& s@.len() == 36 * (colors@.len() as int / 2)
            },
    {
        let n_colors = colors.len();
        if n_colors % 2 != 0 {
            return Err(ConfigError);
        }
        let pairs = n_colors / 2;
        let mut seqs: Vec<CardSequence> = Vec::new();
        let mut p: usize = 0;
        while p < pairs
            invariant
                n_colors == colors@.len(),
                n_colors % 2 == 0,
                pairs == n_colors / 2,
                p <= pairs,
                combined_multiset_from(seq_views(seqs@), 0) == paired_decks_multiset(
                    colors@,
                    p as int,
                ),
                combined_multiset_from(seq_views(seqs@), 0).len() == 36 * p,
            decreases pairs - p,
        {
            let s = CardSequence::generate_player_sequence(colors[2 * p], colors[2 * p + 1]);
            let ghost sv = seq_views(seqs@);
            let ghost added = s@;
            seqs.push(s);
            proof {
                broadcast use group_multiset_axioms;
                broadcast use group_to_multiset_ensures;

                assert(seq_views(seqs@) =~= sv.push(added));
                lemma_combined_push(sv, added, 0);
            }
            p = p + 1;
        }
        let out = CardSequence::flatten_interleaved(seqs);
        proof {
            broadcast use group_multiset_axioms;
            broadcast use group_to_multiset_ensures;

            lemma_interleave_multiset(seq_views(seqs@));
            assert(out@.len() == out@.to_multiset().len());
        }
        Ok(out)
    }

    /// Generate the shared draw sequence of the standard game: the four
    /// standard colors, one private sequence per player, interleaved
    /// round-robin so play alternates between the players one draw at a
    /// time.
    pub fn generate_full_sequence() -> (r: CardSequence)
        ensures
            r@.to_multiset() == full_deck_multiset(),
            r@.len() == 72,
    {
        let colors = card_colors();
        let generated = CardSequence::generate_for_colors(&colors);
        proof {
            broadcast use group_multiset_axioms;

            lemma_multiset_empty_len(paired_decks_multiset(standard_colors(), 0));
            assert(paired_decks_multiset(standard_colors(), 1) =~= player_deck_multiset(
                Color::Salmon,
                Color::Gold,
            ));
            assert(paired_decks_multiset(standard_colors(), 2) =~= full_deck_multiset());
        }
        match generated {
            Ok(s) => s,
            Err(_) => vstd::pervasive::unreached(),
        }
    }

    /// Interleave the given sequences round-robin: draw round `i` of the
    /// output takes, in sequence order, each sequence's card at index
    /// `i` where one exists; shorter sequences simply stop contributing.
    pub fn flatten_interleaved(vec: Vec<CardSequence>) -> (r: CardSequence)
        ensures
            r@ == interleave(seq_views(vec@)),
    {
        let ghost sv = seq_views(vec@);
        // Longest private sequence: the number of draw rounds.
        let mut max: usize = 0;
        let mut j: usize = vec.len();
        while j > 0
            invariant
                j <= vec.len(),
                sv == seq_views(vec@),
                max as int == max_len_from(sv, j as int),
            decreases j,
        {
            j = j - 1;
            if vec[j].cards.len() > max {
                max = vec[j].cards.len();
            }
        }
        let mut out: Vec<Card> = Vec::new();
        let mut i: usize = 0;
        while i < max
            invariant
                i <= max,
                sv == seq_views(vec@),
                max as int == max_len_from(sv, 0),
                out@ == interleave_prefix(sv, i as int),
            decreases max - i,
        {
            let mut j: usize = 0;
            while j < vec.len()
                invariant
                    j <= vec.len(),
                    i < max,
                    sv == seq_views(vec@),
                    out@ + round_cards_from(sv, j as int, i as int) == interleave_prefix(
                        sv,
                        i as int + 1,
                    ),
                decreases vec.len() - j,
            {
                let ghost out_pre = out@;
                if i < vec[j].cards.len() {
                    out.push(vec[j].cards[i]);
                    assert(out@ + round_cards_from(sv, j as int + 1, i as int)
                        =~= out_pre + round_cards_from(sv, j as int, i as int));
                } else {
                    assert(out@ + round_cards_from(sv, j as int + 1, i as int)
                        =~= out_pre + round_cards_from(sv, j as int, i as int));
                }
                j = j + 1;
            }
            assert(out@ =~= out@ + round_cards_from(sv, vec@.len() as int, i as int));
            i = i + 1;
        }
        CardSequence { cards: out }
    }
}

/// The four colors of the standard game, as a list: positions 0 and 1
/// belong to the first player, positions 2 and 3 to the second.
pub fn card_colors() -> (r: Vec<Color>)
    ensures
        r@ == standard_colors(),
{
    let mut v: Vec<Color> = Vec::new();
    v.push(Color::Salmon);
    v.push(Color::Gold);
    v.push(Color::Aquamarine);
    v.push(Color::SeaGreen);
    assert(v@ =~= standard_colors());
    v
}

proof fn lemma_combined_push(seqs: Seq<Seq<Card>>, s: Seq<Card>, j: int)
    requires
        0 <= j <= seqs.len(),
    ensures
        combined_multiset_from(seqs.push(s), j) =~= combined_multiset_from(seqs, j).add(
            s.to_multiset(),
        ),
    decreases seqs.len() - j,
{
    broadcast use group_multiset_axioms;

    if j == seqs.len() {
        assert(combined_multiset_from(seqs.push(s), j + 1) =~= Multiset::empty());
        assert(combined_multiset_from(seqs, j) =~= Multiset::empty());
    } else {
        lemma_combined_push(seqs, s, j + 1);
        assert(seqs.push(s)[j] == seqs[j]);
    }
}

/// The grids of cards behind a list of card sequences.
pub open spec fn seq_views(v: Seq<CardSequence>) -> Seq<Seq<Card>> {
    Seq::new(v.len(), |i: int| v[i]@)
}

/// The cards that draw round `i` takes from the sequences at positions
/// `j` and later: each sequence that still has an element at index `i`
/// contributes it, in sequence order.
pub open spec fn round_cards_from(seqs: Seq<Seq<Card>>, j: int, i: int) -> Seq<Card>
    decreases seqs.len() - j,
{
    if j < 0 || j >= seqs.len() {
        Seq::empty()
    } else {
        (if 0 <= i < seqs[j].len() {
            seq![seqs[j][i]]
        } else {
            Seq::empty()
        }) + round_cards_from(seqs, j + 1, i)
    }
}

/// The first `k` draw rounds of the round-robin interleaving.
pub open spec fn interleave_prefix(seqs: Seq<Seq<Card>>, k: int) -> Seq<Card>
    decreases k,
{
    if k <= 0 {
        Seq::empty()
    } else {
        interleave_prefix(seqs, k - 1) + round_cards_from(seqs, 0, k - 1)
    }
}

/// Length of the longest sequence at position `j` or later.
pub open spec fn max_len_from(seqs: Seq<Seq<Card>>, j: int) -> int
    decreases seqs.len() - j,
{
    if j < 0 || j >= seqs.len() {
        0
    } else {
        let m = max_len_from(seqs, j + 1);
        if seqs[j].len() > m {
            seqs[j].len() as int
        } else {
            m
        }
    }
}

/// The round-robin interleaving of the given sequences: position order
/// is by draw round first, then by sequence.
pub open spec fn interleave(seqs: Seq<Seq<Card>>) -> Seq<Card> {
    interleave_prefix(seqs, max_len_from(seqs, 0))
}

/// The first `k` cards of `s`, or all of `s` when it is shorter.
pub open spec fn take_upto(s: Seq<Card>, k: int) -> Seq<Card> {
    if k < 0 {
        Seq::empty()
    } else if k > s.len() {
        s
    } else {
        s.take(k)
    }
}

/// The cards that the first `k` draw rounds take from the sequences at
/// positions `j` and later, as a multiset.
pub open spec fn taken_multiset_from(seqs: Seq<Seq<Card>>, j: int, k: int) -> Multiset<Card>
    decreases seqs.len() - j,
{
    if j < 0 || j >= seqs.len() {
        Multiset::empty()
    } else {
        take_upto(seqs[j], k).to_multiset().add(taken_multiset_from(seqs, j + 1, k))
    }
}

/// The combined multiset of all cards of the sequences at positions `j`
/// and later.
pub open spec fn combined_multiset_from(seqs: Seq<Seq<Card>>, j: int) -> Multiset<Card>
    decreases seqs.len() - j,
{
    if j < 0 || j >= seqs.len() {
        Multiset::empty()
    } else {
        seqs[j].to_multiset().add(combined_multiset_from(seqs, j + 1))
    }
}

proof fn lemma_taken_empty(seqs: Seq<Seq<Card>>, j: int, k: int)
    requires
        k <= 0,
    ensures
        taken_multiset_from(seqs, j, k) =~= Multiset::empty(),
    decreases seqs.len() - j,
{
    broadcast use group_multiset_axioms;
    broadcast use group_to_multiset_ensures;

    if 0 <= j < seqs.len() {
        lemma_taken_empty(seqs, j + 1, k);
        lemma_multiset_empty_len(take_upto(seqs[j], k).to_multiset());
    }
}

proof fn lemma_taken_step(seqs: Seq<Seq<Card>>, j: int, k: int)
    requires
        k >= 1,
    ensures
        taken_multiset_from(seqs, j, k) =~= taken_multiset_from(seqs, j, k - 1).add(
            round_cards_from(seqs, j, k - 1).to_multiset(),
        ),
    decreases seqs.len() - j,
{
    broadcast use group_multiset_axioms;
    broadcast use group_to_multiset_ensures;

    if j < 0 || j >= seqs.len() {
        lemma_multiset_empty_len(Seq::<Card>::empty().to_multiset());
    } else {
        lemma_taken_step(seqs, j + 1, k);
        let s = seqs[j];
        let contribution: Seq<Card> = if 0 <= k - 1 < s.len() {
            seq![s[k - 1]]
        } else {
            Seq::empty()
        };
        assert(take_upto(s, k) =~= take_upto(s, k - 1) + contribution);
        lemma_multiset_commutative(take_upto(s, k - 1), contribution);
        lemma_multiset_commutative(contribution, round_cards_from(seqs, j + 1, k - 1));
    }
}

proof fn lemma_interleave_prefix_multiset(seqs: Seq<Seq<Card>>, k: int)
    requires
        k >= 0,
    ensures
        interleave_prefix(seqs, k).to_multiset() =~= taken_multiset_from(seqs, 0, k),
    decreases k,
{
    broadcast use group_multiset_axioms;
    broadcast use group_to_multiset_ensures;

    if k == 0 {
        lemma_taken_empty(seqs, 0, 0);
        lemma_multiset_empty_len(interleave_prefix(seqs, 0).to_multiset());
    } else {
        lemma_interleave_prefix_multiset(seqs, k - 1);
        lemma_taken_step(seqs, 0, k);
        lemma_multiset_commutative(interleave_prefix(seqs, k - 1), round_cards_from(seqs, 0, k - 1));
    }
}

proof fn lemma_max_len_nonneg(seqs: Seq<Seq<Card>>, j: int)
    ensures
        max_len_from(seqs, j) >= 0,
    decreases seqs.len() - j,
{
    if 0 <= j < seqs.len() {
        lemma_max_len_nonneg(seqs, j + 1);
    }
}

proof fn lemma_taken_all(seqs: Seq<Seq<Card>>, j: int, k: int)
    requires
        k >= max_len_from(seqs, j),
    ensures
        taken_multiset_from(seqs, j, k) =~= combined_multiset_from(seqs, j),
    decreases seqs.len() - j,
{
    broadcast use group_multiset_axioms;

    if 0 <= j < seqs.len() {
        lemma_taken_all(seqs, j + 1, k);
        assert(take_upto(seqs[j], k) =~= seqs[j]);
    }
}

/// Interleaving draws exactly the cards of its inputs: the multiset of
/// the round-robin interleaving is the combined multiset of the
/// sequences it interleaves.
pub proof fn lemma_interleave_multiset(seqs: Seq<Seq<Card>>)
    ensures
        interleave(seqs).to_multiset() == combined_multiset_from(seqs, 0),
{
    lemma_max_len_nonneg(seqs, 0);
    lemma_interleave_prefix_multiset(seqs, max_len_from(seqs, 0));
    lemma_taken_all(seqs, 0, max_len_from(seqs, 0));
}

} // verus!
