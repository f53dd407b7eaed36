//! Round scoring: the points that a face-up pile is worth by itself, and the
//! points for maki rolls, which are awarded across all players of the round.

use crate::types::{Card, FaceUpCard, Nigiri};
use std::collections::HashMap;
use std::hash::Hash;
use vstd::prelude::*;
use vstd::std_specs::hash::{obeys_key_model, spec_hash_map_iter};
use vstd::std_specs::iter::IteratorSpec;

verus! {

broadcast use vstd::std_specs::hash::group_hash_axioms;

/// Points for `n` dumplings: 0, 1, 3, 6, 10, and 15 for five or more.
pub open spec fn dumpling_points(n: nat) -> nat {
    if n == 0 {
        0
    } else if n == 1 {
        1
    } else if n == 2 {
        3
    } else if n == 3 {
        6
    } else if n == 4 {
        10
    } else {
        15
    }
}

/// Points for `n` sashimi: ten for each full set of three.
pub open spec fn sashimi_points(n: nat) -> nat {
    10 * (n / 3)
}

/// Points for `n` tempura: five for each full pair.
pub open spec fn tempura_points(n: nat) -> nat {
    5 * (n / 2)
}

/// How many entries of `pile` show the plain card `card`.
pub open spec fn count_shown(pile: Seq<FaceUpCard>, card: Card) -> nat
    decreases pile.len(),
{
    if pile.len() == 0 {
        0
    } else {
        count_shown(pile.drop_last(), card) + if pile.last().shows(card) {
            1nat
        } else {
            0nat
        }
    }
}

/// The nigiri points of one pile entry: the nigiri's value, tripled where it
/// lies on wasabi; nothing for any other entry.
pub open spec fn entry_nigiri_points(entry: FaceUpCard) -> nat {
    match entry {
        FaceUpCard::Card { id: _, card: Card::Nigiri(nigiri) } => nigiri.value(),
        FaceUpCard::Card { id: _, card: _ } => 0,
        FaceUpCard::Wasabi { nigiri } => 3 * nigiri.value(),
    }
}

/// The maki rolls that one pile entry shows.
pub open spec fn entry_maki_rolls(entry: FaceUpCard) -> nat {
    match entry {
        FaceUpCard::Card { id: _, card: Card::MakiRolls(rolls) } => rolls.rolls(),
        _ => 0,
    }
}

/// The nigiri points of a pile.
pub open spec fn nigiri_points(pile: Seq<FaceUpCard>) -> nat
    decreases pile.len(),
{
    if pile.len() == 0 {
        0
    } else {
        nigiri_points(pile.drop_last()) + entry_nigiri_points(pile.last())
    }
}

/// The maki rolls of a pile.
pub open spec fn maki_rolls(pile: Seq<FaceUpCard>) -> nat
    decreases pile.len(),
{
    if pile.len() == 0 {
        0
    } else {
        maki_rolls(pile.drop_last()) + entry_maki_rolls(pile.last())
    }
}

/// What a pile is worth by itself: its dumplings, nigiri, sashimi and tempura.
pub open spec fn pile_points(pile: Seq<FaceUpCard>) -> nat {
    dumpling_points(count_shown(pile, Card::Dumpling)) + nigiri_points(pile) + sashimi_points(
        count_shown(pile, Card::Sashimi),
    ) + tempura_points(count_shown(pile, Card::Tempura))
}

/// The base value of a nigiri.
pub fn score_nigiri(nigiri: &Nigiri) -> (points: usize)
    ensures
        points == nigiri.value(),
{
    match nigiri {
        Nigiri::Egg => 1,
        Nigiri::Salmon => 2,
        Nigiri::Squid => 3,
    }
}

/// The points for `num_dumplings` dumplings.
pub fn score_dumplings(num_dumplings: usize) -> (points: usize)
    ensures
        points == dumpling_points(num_dumplings as nat),
{
    match num_dumplings {
        0 => 0,
        1 => 1,
        2 => 3,
        3 => 6,
        4 => 10,
        _ => 15,
    }
}

/// The points for `num_sashimis` sashimi.
pub fn score_sashimis(num_sashimis: usize) -> (points: usize)
    requires
        sashimi_points(num_sashimis as nat) <= usize::MAX,
    ensures
        points == sashimi_points(num_sashimis as nat),
{
    10 * (num_sashimis / 3)
}

/// The points for `num_tempuras` tempura.
pub fn score_tempuras(num_tempuras: usize) -> (points: usize)
    requires
        tempura_points(num_tempuras as nat) <= usize::MAX,
    ensures
        points == tempura_points(num_tempuras as nat),
{
    5 * (num_tempuras / 2)
}

/// The sums over a pile grow with the pile.
pub proof fn lemma_prefix_sums(pile: Seq<FaceUpCard>, n: int)
    requires
        0 <= n <= pile.len(),
    ensures
        nigiri_points(pile.take(n)) <= nigiri_points(pile),
        maki_rolls(pile.take(n)) <= maki_rolls(pile),
    decreases pile.len() - n,
{
    if n == pile.len() {
        assert(pile.take(n) == pile);
    } else {
        lemma_prefix_sums(pile, n + 1);
        assert(pile.take(n + 1).drop_last() == pile.take(n));
    }
}

/// A pile is worth at most sixteen points for each entry and fifteen more,
/// and shows at most three maki rolls for each entry.
pub proof fn lemma_pile_bounds(pile: Seq<FaceUpCard>)
    ensures
        count_shown(pile, Card::Dumpling) + count_shown(pile, Card::Sashimi) + count_shown(
            pile,
            Card::Tempura,
        ) <= pile.len(),
        nigiri_points(pile) <= 9 * pile.len(),
        maki_rolls(pile) <= 3 * pile.len(),
        pile_points(pile) <= 16 * pile.len() + 15,
    decreases pile.len(),
{
    if pile.len() > 0 {
        lemma_pile_bounds(pile.drop_last());
    }
}

/// Scores one face-up pile: its points without the maki rolls, and the
/// number of maki rolls it shows.
pub fn score_face_up_cards(face_up_cards: &[FaceUpCard]) -> (score: (usize, usize))
    requires
        pile_points(face_up_cards@) <= usize::MAX,
        maki_rolls(face_up_cards@) <= usize::MAX,
    ensures
        score.0 == pile_points(face_up_cards@),
        score.1 == maki_rolls(face_up_cards@),
{
    let mut nigiri_points: usize = 0;
    let mut num_dumplings: usize = 0;
    let mut num_maki_rolls: usize = 0;
    let mut num_sashimis: usize = 0;
    let mut num_tempuras: usize = 0;
    let ghost pile = face_up_cards@;
    let mut i: usize = 0;
    while i < face_up_cards.len()
        invariant
            i <= face_up_cards.len(),
            pile == face_up_cards@,
            pile_points(pile) <= usize::MAX,
            maki_rolls(pile) <= usize::MAX,
            nigiri_points == self::nigiri_points(pile.take(i as int)),
            num_maki_rolls == maki_rolls(pile.take(i as int)),
            num_dumplings == count_shown(pile.take(i as int), Card::Dumpling),
            num_sashimis == count_shown(pile.take(i as int), Card::Sashimi),
            num_tempuras == count_shown(pile.take(i as int), Card::Tempura),
        decreases face_up_cards.len() - i,
    {
        proof {
            assert(pile.take(i + 1).drop_last() == pile.take(i as int));
            lemma_prefix_sums(pile, i + 1);
            lemma_pile_bounds(pile.take(i as int));
        }
        match &face_up_cards[i] {
            FaceUpCard::Card { id: _, card } => match card {
                Card::Dumpling => num_dumplings += 1,
                Card::MakiRolls(n) => num_maki_rolls += n.count(),
                Card::Nigiri(nigiri) => nigiri_points += score_nigiri(nigiri),
                Card::Sashimi => num_sashimis += 1,
                Card::Tempura => num_tempuras += 1,
                _ => {},
            },
            FaceUpCard::Wasabi { nigiri } => {
                nigiri_points += 3 * score_nigiri(nigiri);
            },
        }
        i += 1;
    }
    assert(pile.take(pile.len() as int) == pile);
    let dumpling_points = score_dumplings(num_dumplings);
    let sashimi_points = score_sashimis(num_sashimis);
    let tempura_points = score_tempuras(num_tempuras);
    let total_points = dumpling_points + nigiri_points + sashimi_points + tempura_points;
    (total_points, num_maki_rolls)
}

/// Points for the most maki rolls of a round, split among those who have them.
pub const FIRST_PLACE_POINTS: usize = 6;

/// Points for the second most maki rolls of a round, split likewise.
pub const SECOND_PLACE_POINTS: usize = 3;

/// The test "more than `n`".
pub open spec fn more_than(n: usize) -> spec_fn(usize) -> bool {
    |v: usize| v > n
}

/// The test "exactly `n`".
pub open spec fn exactly(n: usize) -> spec_fn(usize) -> bool {
    |v: usize| v == n
}

/// The keys of `rolls` whose number passes the test `p`.
pub open spec fn holders<K>(rolls: Map<K, usize>, p: spec_fn(usize) -> bool) -> Set<K> {
    rolls.dom().filter(|k: K| p(rolls[k]))
}

/// How many players of the round have more than `n` maki rolls.
pub open spec fn players_with_more<K>(rolls: Map<K, usize>, n: usize) -> nat {
    holders(rolls, more_than(n)).len()
}

/// How many players of the round have exactly `n` maki rolls.
pub open spec fn players_with<K>(rolls: Map<K, usize>, n: usize) -> nat {
    holders(rolls, exactly(n)).len()
}

/// The maki points of a player with `n` rolls in a round where the players'
/// rolls are `rolls`. Without rolls there are no points. Those with the most
/// rolls, whom nobody is ahead of, split the points for the first place. Where
/// one player alone has the most, those with the second most, whom only that
/// player is ahead of, split the points for the second place. A share is
/// rounded down. Everybody else gets nothing.
pub open spec fn maki_points<K>(rolls: Map<K, usize>, n: usize) -> nat {
    if n == 0 {
        0
    } else if players_with_more(rolls, n) == 0 {
        FIRST_PLACE_POINTS as nat / players_with(rolls, n)
    } else if players_with_more(rolls, n) == 1 {
        SECOND_PLACE_POINTS as nat / players_with(rolls, n)
    } else {
        0
    }
}

/// How many of `entries` have a number that passes the test `p`.
pub open spec fn tally<K>(entries: Seq<(K, usize)>, p: spec_fn(usize) -> bool) -> nat
    decreases entries.len(),
{
    if entries.len() == 0 {
        0
    } else {
        tally(entries.drop_last(), p) + if p(entries.last().1) {
            1nat
        } else {
            0nat
        }
    }
}

/// Whether `entries` lists the pairs of `map`, each key once.
pub open spec fn lists<K, V>(entries: Seq<(K, V)>, map: Map<K, V>) -> bool {
    &&& forall|i: int, j: int|
        0 <= i < j < entries.len() ==> (#[trigger] entries[i]).0 != (#[trigger] entries[j]).0
    &&& forall|i: int|
        0 <= i < entries.len() ==> map.contains_key((#[trigger] entries[i]).0) && map[entries[i].0]
            == entries[i].1
    &&& forall|k: K| #[trigger]
        map.contains_key(k) ==> exists|i: int| 0 <= i < entries.len() && (#[trigger] entries[i]).0 == k
}

/// The pairs of `map`, in the order in which the map hands them out.
fn entries_of<K: Copy + Eq + Hash>(map: &HashMap<K, usize>) -> (entries: Vec<(K, usize)>)
    requires
        obeys_key_model::<K>(),
    ensures
        lists(entries@, map@),
{
    let mut entries: Vec<(K, usize)> = Vec::new();
    let ghost pairs = spec_hash_map_iter(map).remaining();
    for pair in it: map.iter()
        invariant
            it.seq() == pairs,
            pairs.no_duplicates(),
            entries@.len() == it.index(),
            forall|i: int|
                0 <= i < entries@.len() ==> (#[trigger] entries@[i]).0 == *pairs[i].0
                    && entries@[i].1 == *pairs[i].1,
    {
        let (key, value) = pair;
        entries.push((*key, *value));
    }
    proof {
        assert forall|i: int, j: int| 0 <= i < j < entries@.len() implies (#[trigger] entries@[i]).0
            != (#[trigger] entries@[j]).0 by {
            assert(map@[*pairs[i].0] == *pairs[i].1);
        }
        assert forall|k: K| #[trigger] map@.contains_key(k) implies exists|i: int|
            0 <= i < entries@.len() && (#[trigger] entries@[i]).0 == k by {
            let i = choose|i: int| 0 <= i < pairs.len() && pairs[i] == (&k, &map@[k]);
            assert(entries@[i].0 == k);
        }
    }
    entries
}

/// Counting along a list of a map's pairs is counting the map's keys.
proof fn lemma_tally<K>(entries: Seq<(K, usize)>, map: Map<K, usize>, p: spec_fn(usize) -> bool)
    requires
        lists(entries, map),
        map.dom().finite(),
    ensures
        tally(entries, p) == holders(map, p).len(),
        holders(map, p).finite(),
    decreases entries.len(),
{
    if entries.len() == 0 {
        assert(holders(map, p) =~= Set::<K>::empty());
    } else {
        let rest = entries.drop_last();
        let (key, n) = entries.last();
        let less = map.remove(key);
        assert(lists(rest, less)) by {
            assert forall|k: K| #[trigger] less.contains_key(k) implies exists|i: int|
                0 <= i < rest.len() && (#[trigger] rest[i]).0 == k by {
                let i = choose|i: int| 0 <= i < entries.len() && (#[trigger] entries[i]).0 == k;
                assert(rest[i].0 == k);
            }
        }
        lemma_tally(rest, less, p);
        if p(n) {
            assert(holders(map, p) =~= holders(less, p).insert(key));
        } else {
            assert(holders(map, p) =~= holders(less, p));
        }
    }
}

/// An entry that passes the test is counted.
proof fn lemma_tally_counts<K>(entries: Seq<(K, usize)>, p: spec_fn(usize) -> bool, at: int)
    requires
        0 <= at < entries.len(),
        p(entries[at].1),
    ensures
        tally(entries, p) >= 1,
    decreases entries.len(),
{
    if at < entries.len() - 1 {
        lemma_tally_counts(entries.drop_last(), p, at);
    }
}

/// How many of `entries` have more than `n`, or exactly `n` where `more` is
/// false.
fn count_entries<K>(entries: &Vec<(K, usize)>, n: usize, more: bool) -> (count: usize)
    ensures
        count == tally(
            entries@,
            if more {
                more_than(n)
            } else {
                exactly(n)
            },
        ),
{
    let ghost p = if more {
        more_than(n)
    } else {
        exactly(n)
    };
    let mut count: usize = 0;
    let mut i: usize = 0;
    while i < entries.len()
        invariant
            i <= entries.len(),
            count <= i,
            count == tally(entries@.take(i as int), p),
            p == if more {
                more_than(n)
            } else {
                exactly(n)
            },
        decreases entries.len() - i,
    {
        assert(entries@.take(i + 1).drop_last() == entries@.take(i as int));
        let value = entries[i].1;
        if (more && value > n) || (!more && value == n) {
            count += 1;
        }
        i += 1;
    }
    assert(entries@.take(entries@.len() as int) == entries@);
    count
}

/// Awards the maki points of a round: to each key of `num_maki_rolls_by_key`
/// the points for its number of rolls among all the numbers of the map.
pub fn score_maki_rolls<K: Copy + Eq + Hash>(num_maki_rolls_by_key: HashMap<K, usize>) -> (results:
    HashMap<K, usize>)
    requires
        obeys_key_model::<K>(),
    ensures
        results@.dom() == num_maki_rolls_by_key@.dom(),
        forall|k: K| #[trigger]
            results@.contains_key(k) ==> results@[k] == maki_points(
                num_maki_rolls_by_key@,
                num_maki_rolls_by_key@[k],
            ),
{
    let ghost rolls = num_maki_rolls_by_key@;
    let entries = entries_of(&num_maki_rolls_by_key);
    let mut results: HashMap<K, usize> = HashMap::new();
    let mut i: usize = 0;
    while i < entries.len()
        invariant
            obeys_key_model::<K>(),
            i <= entries.len(),
            lists(entries@, rolls),
            rolls.dom().finite(),
            forall|k: K| #[trigger]
                results@.contains_key(k) <==> exists|j: int|
                    0 <= j < i && (#[trigger] entries@[j]).0 == k,
            forall|j: int|
                0 <= j < i ==> results@[(#[trigger] entries@[j]).0] == maki_points(
                    rolls,
                    entries@[j].1,
                ),
        decreases entries.len() - i,
    {
        let (key, n) = entries[i];
        let ahead = count_entries(&entries, n, true);
        let level = count_entries(&entries, n, false);
        proof {
            lemma_tally(entries@, rolls, more_than(n));
            lemma_tally(entries@, rolls, exactly(n));
            lemma_tally_counts(entries@, exactly(n), i as int);
        }
        let num_points = if n == 0 {
            0
        } else if ahead == 0 {
            FIRST_PLACE_POINTS / level
        } else if ahead == 1 {
            SECOND_PLACE_POINTS / level
        } else {
            0
        };
        results.insert(key, num_points);
        i += 1;
    }
    results
}

/// The maki rolls of each pile of a round.
pub open spec fn rolls_of<K>(piles: Map<K, Seq<FaceUpCard>>) -> Map<K, usize> {
    piles.map_values(|pile: Seq<FaceUpCard>| maki_rolls(pile) as usize)
}

/// What the round brings the player `k`: what the player's pile is worth by
/// itself, and the player's maki points among all the piles of the round.
pub open spec fn round_points<K>(piles: Map<K, Seq<FaceUpCard>>, k: K) -> nat {
    pile_points(piles[k]) + maki_points(rolls_of(piles), rolls_of(piles)[k])
}

/// The piles of a round as sequences.
pub open spec fn piles_of<K>(round: Map<K, Vec<FaceUpCard>>) -> Map<K, Seq<FaceUpCard>> {
    round.map_values(|pile: Vec<FaceUpCard>| pile@)
}

/// Whether every pile of the round can be scored within `usize`.
pub open spec fn scorable<K>(piles: Map<K, Seq<FaceUpCard>>) -> bool {
    forall|k: K| #[trigger]
        piles.contains_key(k) ==> pile_points(piles[k]) + FIRST_PLACE_POINTS <= usize::MAX
            && maki_rolls(piles[k]) <= usize::MAX
}

/// Nobody gets more maki points than the first place is worth.
pub proof fn lemma_maki_points_bound<K>(rolls: Map<K, usize>, k: K)
    requires
        rolls.dom().finite(),
        rolls.contains_key(k),
    ensures
        maki_points(rolls, rolls[k]) <= FIRST_PLACE_POINTS,
{
    let n = rolls[k];
    assert(holders(rolls, exactly(n)).contains(k));
    let level = players_with(rolls, n) as int;
    assert(6int / level <= 6 && 3int / level <= 6) by (nonlinear_arith)
        requires
            level >= 1,
    ;
}

/// Scores a round: to each key of `round` the points of its pile, maki
/// points among all piles included.
pub fn score_round<K: Copy + Eq + Hash>(round: &HashMap<K, Vec<FaceUpCard>>) -> (scores: HashMap<
    K,
    usize,
>)
    requires
        obeys_key_model::<K>(),
        scorable(piles_of(round@)),
    ensures
        scores@.dom() == round@.dom(),
        forall|k: K| #[trigger]
            scores@.contains_key(k) ==> scores@[k] == round_points(piles_of(round@), k),
{
    let ghost piles = piles_of(round@);
    let mut num_points: Vec<(K, usize)> = Vec::new();
    let mut num_maki_rolls_by_key: HashMap<K, usize> = HashMap::new();
    let ghost pairs = spec_hash_map_iter(round).remaining();
    for pair in it: round.iter()
        invariant
            obeys_key_model::<K>(),
            it.seq() == pairs,
            pairs == spec_hash_map_iter(round).remaining(),
            piles == piles_of(round@),
            scorable(piles),
            pairs.no_duplicates(),
            num_points@.len() == it.index(),
            forall|i: int|
                0 <= i < num_points@.len() ==> (#[trigger] num_points@[i]).0 == *pairs[i].0
                    && num_points@[i].1 == pile_points(piles[*pairs[i].0]),
            forall|k: K| #[trigger]
                num_maki_rolls_by_key@.contains_key(k) <==> exists|i: int|
                    0 <= i < it.index() && *(#[trigger] pairs[i]).0 == k,
            forall|i: int|
                0 <= i < it.index() ==> num_maki_rolls_by_key@[*(#[trigger] pairs[i]).0]
                    == maki_rolls(piles[*pairs[i].0]),
    {
        let (key, face_up_cards) = pair;
        assert(piles.contains_key(*key) && piles[*key] == face_up_cards@);
        let (points, num_maki_rolls) = score_face_up_cards(face_up_cards.as_slice());
        num_points.push((*key, points));
        num_maki_rolls_by_key.insert(*key, num_maki_rolls);
    }
    let ghost rolls = num_maki_rolls_by_key@;
    let maki_points = score_maki_rolls(num_maki_rolls_by_key);
    let mut scores: HashMap<K, usize> = HashMap::new();
    let mut i: usize = 0;
    while i < num_points.len()
        invariant
            obeys_key_model::<K>(),
            i <= num_points.len(),
            num_points@.len() == pairs.len(),
            pairs == spec_hash_map_iter(round).remaining(),
            piles == piles_of(round@),
            scorable(piles),
            rolls == rolls_of(piles),
            forall|i: int, j: int|
                0 <= i < j < pairs.len() ==> *(#[trigger] pairs[i]).0 != *(#[trigger] pairs[j]).0,
            forall|j: int|
                0 <= j < num_points@.len() ==> (#[trigger] num_points@[j]).0 == *pairs[j].0
                    && num_points@[j].1 == pile_points(piles[*pairs[j].0]),
            maki_points@.dom() == rolls.dom(),
            forall|k: K| #[trigger]
                maki_points@.contains_key(k) ==> maki_points@[k] == self::maki_points(
                    rolls,
                    rolls[k],
                ),
            forall|k: K| #[trigger]
                scores@.contains_key(k) <==> exists|j: int|
                    0 <= j < i && (#[trigger] num_points@[j]).0 == k,
            forall|j: int|
                0 <= j < i ==> scores@[(#[trigger] num_points@[j]).0] == round_points(
                    piles,
                    num_points@[j].0,
                ),
        decreases num_points.len() - i,
    {
        let (key, points) = num_points[i];
        proof {
            lemma_maki_points_bound(rolls, key);
        }
        let extra = maki_points.get(&key);
        let total = points + *extra.unwrap();
        scores.insert(key, total);
        i += 1;
    }
    proof {
        assert(scores@.dom() =~= round@.dom()) by {
            assert forall|k: K| scores@.dom().contains(k) <==> round@.dom().contains(k) by {
                if round@.contains_key(k) {
                    let j = choose|j: int| 0 <= j < pairs.len() && pairs[j] == (&k, &round@[k]);
                    assert(num_points@[j].0 == k);
                }
            }
        }
    }
    scores
}

} // verus!
