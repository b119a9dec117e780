//! The order of a population: fitter first, and of the equally fit whoever stood first.

use vstd::prelude::*;
use crate::evolution::UniverseMember;

verus! {

/// No member is fitter than one before it.
pub open spec fn ranked(members: Seq<UniverseMember>) -> bool {
    forall|i: int, j: int|
        0 <= i < j < members.len() ==> (#[trigger] members[i]).fitness.rank() >= (
        #[trigger] members[j]).fitness.rank()
}

/// Whether a member that stood at `place_a` goes before one that stood at `place_b`:
/// the fitter goes first, and of two equally fit the one that stood first.
pub open spec fn goes_before(a: UniverseMember, place_a: int, b: UniverseMember, place_b: int) -> bool {
    a.fitness.rank() > b.fitness.rank() || (a.fitness.rank() == b.fitness.rank() && place_a
        < place_b)
}

/// `after` is `before` in ranking order, `places[i]` being where the member now at `i`
/// stood: every former place occurs, and the order is that of [`goes_before`].
pub open spec fn is_ranking(
    before: Seq<UniverseMember>,
    after: Seq<UniverseMember>,
    places: Seq<int>,
) -> bool {
    &&& after.len() == before.len()
    &&& places.len() == before.len()
    &&& forall|i: int|
        0 <= i < places.len() ==> 0 <= #[trigger] places[i] < before.len() && after[i]
            == before[places[i]]
    &&& forall|k: int| 0 <= k < before.len() ==> #[trigger] places.contains(k)
    &&& forall|i: int, j: int|
        0 <= i < j < places.len() ==> goes_before(
            after[i],
            #[trigger] places[i],
            after[j],
            #[trigger] places[j],
        )
}

/// `after` is `before` sorted by falling fitness, members of equal fitness keeping the
/// order in which they stood.
pub open spec fn ranking_of(before: Seq<UniverseMember>, after: Seq<UniverseMember>) -> bool {
    exists|places: Seq<int>| is_ranking(before, after, places)
}

/// Sorts members by falling fitness. Members of equal fitness keep their order.
pub fn rank_members(members: Vec<UniverseMember>) -> (sorted: Vec<UniverseMember>)
    ensures
        ranking_of(members@, sorted@),
        sorted@ == ranking(members@),
        ranked(sorted@),
{
    let ghost before = members@;
    let mut rest = members;
    let mut sorted: Vec<UniverseMember> = Vec::new();
    let ghost mut places: Seq<int> = Seq::empty();
    while rest.len() > 0
        invariant
            rest@.len() <= before.len(),
            rest@ == before.subrange(0, rest@.len() as int),
            sorted@.len() + rest@.len() == before.len(),
            places.len() == sorted@.len(),
            forall|i: int|
                0 <= i < places.len() ==> rest@.len() <= #[trigger] places[i] < before.len()
                    && sorted@[i] == before[places[i]],
            forall|k: int| rest@.len() <= k < before.len() ==> #[trigger] places.contains(k),
            forall|i: int, j: int|
                0 <= i < j < places.len() ==> goes_before(
                    sorted@[i],
                    #[trigger] places[i],
                    sorted@[j],
                    #[trigger] places[j],
                ),
        decreases rest.len(),
    {
        let ghost place = rest@.len() - 1;
        let ghost old_sorted = sorted@;
        let ghost old_places = places;
        let member = rest.pop().unwrap();
        assert(member == before[place]);
        let key = member.fitness.rank_key();
        let mut at: usize = 0;
        while at < sorted.len() && sorted[at].fitness.rank_key() > key
            invariant
                at <= sorted@.len(),
                sorted@ == old_sorted,
                forall|i: int| 0 <= i < at ==> (#[trigger] sorted@[i]).fitness.rank() > key,
            decreases sorted@.len() - at,
        {
            at += 1;
        }
        sorted.insert(at, member);
        proof {
            places = old_places.insert(at as int, place);
            assert forall|i: int| 0 <= i < places.len() implies rest@.len() <= #[trigger] places[i]
                < before.len() && sorted@[i] == before[places[i]] by {
                if i < at {
                    assert(places[i] == old_places[i]);
                } else if i > at {
                    assert(places[i] == old_places[i - 1]);
                }
            }
            assert forall|k: int| rest@.len() <= k < before.len() implies #[trigger] places.contains(
                k,
            ) by {
                if k == place {
                    assert(places[at as int] == k);
                } else {
                    assert(old_places.contains(k));
                    let i = choose|i: int| 0 <= i < old_places.len() && old_places[i] == k;
                    if i < at {
                        assert(places[i] == k);
                    } else {
                        assert(places[i + 1] == k);
                    }
                }
            }
            assert forall|i: int, j: int| 0 <= i < j < places.len() implies goes_before(
                sorted@[i],
                #[trigger] places[i],
                sorted@[j],
                #[trigger] places[j],
            ) by {
                let oi = if i < at { i } else { i - 1 };
                let oj = if j < at { j } else { j - 1 };
                if i != at {
                    assert(places[i] == old_places[oi] && sorted@[i] == old_sorted[oi]);
                }
                if j != at {
                    assert(places[j] == old_places[oj] && sorted@[j] == old_sorted[oj]);
                }
                if i == at {
                    // the one coming in stood before all that are placed, and is no less fit
                    // than what follows
                    assert(old_places[oj] > place);
                    if at < oj {
                        assert(goes_before(
                            old_sorted[at as int],
                            old_places[at as int],
                            old_sorted[oj],
                            old_places[oj],
                        ));
                    }
                } else if j == at {
                    assert(old_sorted[oi].fitness.rank() > key);
                } else {
                    assert(goes_before(
                        old_sorted[oi],
                        old_places[oi],
                        old_sorted[oj],
                        old_places[oj],
                    ));
                }
            }
        }
    }
    proof {
        assert(is_ranking(before, sorted@, places));
        lemma_ranking_is_ranked(before, sorted@);
        lemma_ranking_is_the_ranking(before, sorted@);
    }
    sorted
}

/// What is in ranking order is ranked.
pub proof fn lemma_ranking_is_ranked(before: Seq<UniverseMember>, after: Seq<UniverseMember>)
    requires
        ranking_of(before, after),
    ensures
        ranked(after),
{
    let places = choose|places: Seq<int>| is_ranking(before, after, places);
    assert forall|i: int, j: int| 0 <= i < j < after.len() implies (#[trigger] after[i]).fitness.rank()
        >= (#[trigger] after[j]).fitness.rank() by {
        assert(goes_before(after[i], places[i], after[j], places[j]));
    }
}

/// Whoever stood anywhere in `before` is no fitter than the first of its ranking.
pub proof fn lemma_ranking_best(before: Seq<UniverseMember>, after: Seq<UniverseMember>, k: int)
    requires
        ranking_of(before, after),
        0 <= k < before.len(),
    ensures
        after[0].fitness.rank() >= before[k].fitness.rank(),
{
    let places = choose|places: Seq<int>| is_ranking(before, after, places);
    assert(places.contains(k));
    let i = choose|i: int| 0 <= i < places.len() && places[i] == k;
    if i > 0 {
        assert(goes_before(after[0], places[0], after[i], places[i]));
    }
}

/// Two rankings of the same members place everyone alike, up to any place `upto`.
proof fn lemma_places_agree(
    before: Seq<UniverseMember>,
    first: Seq<UniverseMember>,
    first_places: Seq<int>,
    second: Seq<UniverseMember>,
    second_places: Seq<int>,
    upto: int,
)
    requires
        is_ranking(before, first, first_places),
        is_ranking(before, second, second_places),
        0 <= upto <= before.len(),
    ensures
        forall|i: int| 0 <= i < upto ==> first_places[i] == second_places[i],
    decreases upto,
{
    if upto > 0 {
        lemma_places_agree(before, first, first_places, second, second_places, upto - 1);
        let i = upto - 1;
        let k1 = first_places[i];
        let k2 = second_places[i];
        if k1 != k2 {
            // each ranking holds the other's choice further down, so the two disagree
            // on which of the two members goes first
            assert(second_places.contains(k1));
            let m = choose|m: int| 0 <= m < second_places.len() && second_places[m] == k1;
            assert(first_places.contains(k2));
            let n = choose|n: int| 0 <= n < first_places.len() && first_places[n] == k2;
            if m < i {
                assert(first_places[m] == k1);
                assert(goes_before(first[m], first_places[m], first[i], first_places[i]));
            } else if n < i {
                assert(second_places[n] == k2);
                assert(goes_before(second[n], second_places[n], second[i], second_places[i]));
            } else {
                assert(goes_before(second[i], second_places[i], second[m], second_places[m]));
                assert(goes_before(first[i], first_places[i], first[n], first_places[n]));
                assert(second[i] == before[k2] && second[m] == before[k1]);
                assert(first[i] == before[k1] && first[n] == before[k2]);
            }
        }
    }
}

/// Members have one ranking only.
pub proof fn lemma_ranking_is_unique(
    before: Seq<UniverseMember>,
    first: Seq<UniverseMember>,
    second: Seq<UniverseMember>,
)
    requires
        ranking_of(before, first),
        ranking_of(before, second),
    ensures
        first == second,
{
    let first_places = choose|places: Seq<int>| is_ranking(before, first, places);
    let second_places = choose|places: Seq<int>| is_ranking(before, second, places);
    lemma_places_agree(before, first, first_places, second, second_places, before.len() as int);
    assert forall|i: int| 0 <= i < first.len() implies first[i] == second[i] by {
        assert(first[i] == before[first_places[i]]);
        assert(second[i] == before[second_places[i]]);
    }
    assert(first =~= second);
}

/// Ranking loses nobody and adds nobody: whoever stood in `before` stands in `after`,
/// and the other way round.
pub proof fn lemma_ranking_keeps_members(before: Seq<UniverseMember>, after: Seq<UniverseMember>)
    requires
        ranking_of(before, after),
    ensures
        forall|k: int| 0 <= k < before.len() ==> after.contains(#[trigger] before[k]),
        forall|i: int| 0 <= i < after.len() ==> before.contains(#[trigger] after[i]),
{
    let places = choose|places: Seq<int>| is_ranking(before, after, places);
    assert forall|k: int| 0 <= k < before.len() implies after.contains(#[trigger] before[k]) by {
        assert(places.contains(k));
        let i = choose|i: int| 0 <= i < places.len() && places[i] == k;
        assert(after[i] == before[k]);
    }
    assert forall|i: int| 0 <= i < after.len() implies before.contains(#[trigger] after[i]) by {
        assert(after[i] == before[places[i]]);
    }
}

/// The members in ranking order.
pub open spec fn ranking(members: Seq<UniverseMember>) -> Seq<UniverseMember> {
    choose|sorted: Seq<UniverseMember>| ranking_of(members, sorted)
}

/// What is in ranking order is the ranking.
pub proof fn lemma_ranking_is_the_ranking(before: Seq<UniverseMember>, after: Seq<UniverseMember>)
    requires
        ranking_of(before, after),
    ensures
        after == ranking(before),
{
    lemma_ranking_is_unique(before, after, ranking(before));
}

} // verus!
