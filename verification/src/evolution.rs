//! A population of expressions and its passage from one generation to the next.

use vstd::prelude::*;
use rayon::iter::{IntoParallelRefIterator, ParallelIterator};
use crate::expr::{computes, ExprTree};
use crate::random::{continues, Draw, RandomSource};
use crate::ranking::{
    is_ranking, lemma_ranking_best, lemma_ranking_is_unique, rank_members, ranked, ranking,
    ranking_of,
};
use crate::values::{is_total, BinaryOp, Number, NEGATIVE_INFINITY_BITS};

verus! {

/// An expression with the fitness it was last given; higher is better.
#[derive(PartialEq, Debug)]
pub struct UniverseMember {
    pub tree: ExprTree,
    pub fitness: Number,
}

/// Why a universe cannot be made.
#[derive(Clone, Copy, PartialEq, Eq, Structural, Debug)]
pub enum ConfigurationError {
    /// The population would hold nobody.
    EmptyPopulation,
    /// Nobody would survive a generation.
    NoSurvivors,
    /// More would survive than the population holds.
    TooManySurvivors,
    /// There would be no input to refer to.
    NoInputs,
}

/// The objective can be asked about every tree.
pub open spec fn accepts_all<F: Fn(&ExprTree) -> Number>(objective: F) -> bool {
    forall|tree: &ExprTree| call_requires(objective, (tree,))
}

/// The objective gives one score only for a tree.
pub open spec fn deterministic<F: Fn(&ExprTree) -> Number>(objective: F) -> bool {
    forall|tree: &ExprTree, a: Number, b: Number|
        #[trigger] call_ensures(objective, (tree,), a) && #[trigger] call_ensures(
            objective,
            (tree,),
            b,
        ) ==> a == b
}

/// The fitness kept for a score: the score itself, or the lowest there is where the score
/// is not a number.
pub open spec fn fitness_of(score: Number) -> Number {
    score.sanitized_spec()
}

/// The member's fitness is what the objective gives for its tree.
pub open spec fn scored<F: Fn(&ExprTree) -> Number>(member: UniverseMember, objective: F) -> bool {
    exists|score: Number| #[trigger]
        call_ensures(objective, (&member.tree,), score) && member.fitness == fitness_of(score)
}

/// Every member's fitness is what the objective gives for its tree.
pub open spec fn all_scored<F: Fn(&ExprTree) -> Number>(
    members: Seq<UniverseMember>,
    objective: F,
) -> bool {
    forall|i: int| 0 <= i < members.len() ==> scored(#[trigger] members[i], objective)
}

/// `after` holds the trees of `before`, each in its place, with the fitness that the
/// objective gives for it.
pub open spec fn scores_of<F: Fn(&ExprTree) -> Number>(
    before: Seq<UniverseMember>,
    objective: F,
    after: Seq<UniverseMember>,
) -> bool {
    &&& after.len() == before.len()
    &&& forall|i: int|
        0 <= i < before.len() ==> (#[trigger] after[i]).tree == before[i].tree && scored(
            after[i],
            objective,
        )
}

/// Ranking moves members about and changes none: what held of each before holds of each after.
pub proof fn lemma_ranking_keeps_scores<F: Fn(&ExprTree) -> Number>(
    before: Seq<UniverseMember>,
    after: Seq<UniverseMember>,
    objective: F,
)
    requires
        ranking_of(before, after),
        all_scored(before, objective),
    ensures
        all_scored(after, objective),
{
    let places = choose|places: Seq<int>| is_ranking(before, after, places);
    assert forall|i: int| 0 <= i < after.len() implies scored(#[trigger] after[i], objective) by {
        assert(after[i] == before[places[i]]);
    }
}

/// `after` is what evaluating every member of `before` and ranking the outcome gives.
pub open spec fn sorts_to<F: Fn(&ExprTree) -> Number>(
    before: Seq<UniverseMember>,
    objective: F,
    after: Seq<UniverseMember>,
) -> bool {
    exists|evaluated: Seq<UniverseMember>| #[trigger]
        scores_of(before, objective, evaluated) && ranking_of(evaluated, after)
}

/// Evaluating and ranking leave nothing to chance: under an objective that gives one
/// score only for a tree, the same members come out the same, fitness and order.
pub proof fn lemma_sort_is_deterministic<F: Fn(&ExprTree) -> Number>(
    before: Seq<UniverseMember>,
    objective: F,
    first: Seq<UniverseMember>,
    second: Seq<UniverseMember>,
)
    requires
        deterministic(objective),
        sorts_to(before, objective, first),
        sorts_to(before, objective, second),
    ensures
        first == second,
{
    let a = choose|evaluated: Seq<UniverseMember>| #[trigger]
        scores_of(before, objective, evaluated) && ranking_of(evaluated, first);
    let b = choose|evaluated: Seq<UniverseMember>| #[trigger]
        scores_of(before, objective, evaluated) && ranking_of(evaluated, second);
    assert forall|i: int| 0 <= i < a.len() implies a[i] == b[i] by {
        assert(scored(a[i], objective));
        assert(scores_of(a, objective, b)) by {
            assert forall|j: int| 0 <= j < a.len() implies (#[trigger] b[j]).tree == a[j].tree
                && scored(b[j], objective) by {
                assert(a[j].tree == before[j].tree);
            }
        }
        lemma_scores_again(a, objective, b, i);
        assert(a[i].tree == before[i].tree && b[i].tree == before[i].tree);
    }
    assert(a =~= b);
    lemma_ranking_is_unique(a, first, second);
}

/// `child` can stand at place `k` of the generation bred from `parents`, of whom the first
/// `survivors` breed. The parent at place `i` gives its own tree to place `2 i` and a
/// mutant of it to place `2 i + 1`; places that no parent reaches hold trees grown at
/// random. Nobody has been scored yet.
pub open spec fn child_of<U: Fn() -> Number, A: Fn(BinaryOp, Number, Number) -> Number>(
    parents: Seq<UniverseMember>,
    survivors: usize,
    arity: usize,
    max_depth: usize,
    unit: U,
    arith: A,
    k: int,
    child: UniverseMember,
) -> bool {
    &&& child.fitness@ == NEGATIVE_INFINITY_BITS
    &&& if k / 2 < survivors {
        if k % 2 == 0 {
            child.tree == parents[k / 2].tree
        } else {
            parents[k / 2].tree.mutates_to(arity, unit, arith, child.tree)
        }
    } else {
        child.tree.grown(max_depth as nat, arity, unit)
    }
}

/// `children` can be the generation bred from `parents`: as many as the parents, each as
/// [`child_of`] says for its place.
pub open spec fn offspring_of<U: Fn() -> Number, A: Fn(BinaryOp, Number, Number) -> Number>(
    parents: Seq<UniverseMember>,
    survivors: usize,
    arity: usize,
    max_depth: usize,
    unit: U,
    arith: A,
    children: Seq<UniverseMember>,
) -> bool {
    &&& children.len() == parents.len()
    &&& forall|k: int|
        0 <= k < children.len() ==> child_of(
            parents,
            survivors,
            arity,
            max_depth,
            unit,
            arith,
            k,
            #[trigger] children[k],
        )
}

/// `after` can follow `before` as the next generation: `before` is evaluated and ranked,
/// the ranked breed, and their offspring are evaluated and ranked.
pub open spec fn generation_of<
    F: Fn(&ExprTree) -> Number,
    U: Fn() -> Number,
    A: Fn(BinaryOp, Number, Number) -> Number,
>(
    before: Seq<UniverseMember>,
    survivors: usize,
    arity: usize,
    max_depth: usize,
    objective: F,
    unit: U,
    arith: A,
    after: Seq<UniverseMember>,
) -> bool {
    exists|parents: Seq<UniverseMember>, children: Seq<UniverseMember>|
        sorts_to(before, objective, parents) && #[trigger] offspring_of(
            parents,
            survivors,
            arity,
            max_depth,
            unit,
            arith,
            children,
        ) && sorts_to(children, objective, after)
}

/// Evaluating again what was evaluated by an objective that gives one score only for a
/// tree changes no fitness.
pub proof fn lemma_scores_again<F: Fn(&ExprTree) -> Number>(
    before: Seq<UniverseMember>,
    objective: F,
    after: Seq<UniverseMember>,
    i: int,
)
    requires
        deterministic(objective),
        scores_of(before, objective, after),
        0 <= i < before.len(),
        scored(before[i], objective),
    ensures
        after[i].fitness == before[i].fitness,
{
    let a = choose|score: Number| #[trigger]
        call_ensures(objective, (&before[i].tree,), score) && before[i].fitness == fitness_of(score);
    assert(scored(after[i], objective));
    let b = choose|score: Number| #[trigger]
        call_ensures(objective, (&after[i].tree,), score) && after[i].fitness == fitness_of(score);
    assert(after[i].tree == before[i].tree);
    assert(call_ensures(objective, (&before[i].tree,), b));
}

/// The best fitness never falls from one generation to the next: where the objective
/// gives one score only for a tree and `before` carries the scores it gives, the first of
/// the next generation is at least as fit as everyone in `before`.
pub proof fn lemma_elitism<
    F: Fn(&ExprTree) -> Number,
    U: Fn() -> Number,
    A: Fn(BinaryOp, Number, Number) -> Number,
>(
    before: Seq<UniverseMember>,
    survivors: usize,
    arity: usize,
    max_depth: usize,
    objective: F,
    unit: U,
    arith: A,
    after: Seq<UniverseMember>,
)
    requires
        1 <= survivors <= before.len(),
        deterministic(objective),
        all_scored(before, objective),
        generation_of(before, survivors, arity, max_depth, objective, unit, arith, after),
    ensures
        forall|i: int|
            0 <= i < before.len() ==> after[0].fitness.rank() >= (#[trigger] before[i]).fitness.rank(),
{
    let (parents, children) = choose|parents: Seq<UniverseMember>, children: Seq<UniverseMember>|
        sorts_to(before, objective, parents) && #[trigger] offspring_of(
            parents,
            survivors,
            arity,
            max_depth,
            unit,
            arith,
            children,
        ) && sorts_to(children, objective, after);
    let first = choose|evaluated: Seq<UniverseMember>| #[trigger]
        scores_of(before, objective, evaluated) && ranking_of(evaluated, parents);
    let second = choose|evaluated: Seq<UniverseMember>| #[trigger]
        scores_of(children, objective, evaluated) && ranking_of(evaluated, after);
    // the best parent hands its tree on, and the tree gets the same score again
    assert(all_scored(first, objective)) by {
        assert forall|i: int| 0 <= i < first.len() implies scored(#[trigger] first[i], objective) by {
        }
    }
    lemma_ranking_keeps_scores(first, parents, objective);
    assert(scored(parents[0], objective));
    assert(child_of(parents, survivors, arity, max_depth, unit, arith, 0, children[0]));
    assert(children[0].tree == parents[0].tree);
    assert(scored(second[0], objective));
    assert(second[0].tree == parents[0].tree);
    let a = choose|score: Number| #[trigger]
        call_ensures(objective, (&parents[0].tree,), score) && parents[0].fitness == fitness_of(score);
    let b = choose|score: Number| #[trigger]
        call_ensures(objective, (&second[0].tree,), score) && second[0].fitness == fitness_of(score);
    assert(call_ensures(objective, (&parents[0].tree,), b));
    assert(second[0].fitness == parents[0].fitness);
    lemma_ranking_best(second, after, 0);
    assert forall|i: int| 0 <= i < before.len() implies after[0].fitness.rank() >= (
    #[trigger] before[i]).fitness.rank() by {
        lemma_scores_again(before, objective, first, i);
        lemma_ranking_best(first, parents, i);
    }
}


/// `g` says what the objective returns: whatever a call gives for a tree is the value of `g`.
pub open spec fn models<F: Fn(&ExprTree) -> Number>(
    objective: F,
    g: spec_fn(ExprTree) -> Number,
) -> bool {
    forall|tree: &ExprTree, score: Number| #[trigger]
        call_ensures(objective, (tree,), score) ==> score == g(*tree)
}

/// The members with the fitness that `g` gives for each tree.
pub open spec fn scoring(members: Seq<UniverseMember>, g: spec_fn(ExprTree) -> Number) -> Seq<
    UniverseMember,
> {
    Seq::new(
        members.len(),
        |i: int| UniverseMember { tree: members[i].tree, fitness: fitness_of(g(members[i].tree)) },
    )
}

/// Where `g` says what the objective returns, evaluating gives the scoring by `g`.
pub proof fn lemma_scores_are_the_scoring<F: Fn(&ExprTree) -> Number>(
    before: Seq<UniverseMember>,
    objective: F,
    g: spec_fn(ExprTree) -> Number,
    after: Seq<UniverseMember>,
)
    requires
        models(objective, g),
        scores_of(before, objective, after),
    ensures
        after == scoring(before, g),
{
    assert forall|i: int| 0 <= i < after.len() implies after[i] == scoring(before, g)[i] by {
        assert(scored(after[i], objective));
        let score = choose|score: Number| #[trigger]
            call_ensures(objective, (&after[i].tree,), score) && after[i].fitness == fitness_of(score);
        assert(score == g(after[i].tree));
    }
    assert(after =~= scoring(before, g));
}

/// The first `count` members that a new universe makes of the draws from place `at` on,
/// with the place after the last draw read: trees grown one after the other, none scored.
pub open spec fn population(max_depth: nat, stream: Seq<Draw>, at: int, count: nat) -> (
    Seq<UniverseMember>,
    int,
)
    decreases count,
{
    if count == 0 {
        (Seq::empty(), at)
    } else {
        let earlier = population(max_depth, stream, at, (count - 1) as nat);
        let grown = ExprTree::growth(max_depth, stream, earlier.1);
        (
            earlier.0.push(
                UniverseMember { tree: grown.0, fitness: Number { inner: NEGATIVE_INFINITY_BITS } },
            ),
            grown.1,
        )
    }
}

/// The first `count` children that the draws from place `at` on make of `parents`, under
/// the arithmetic `f`, with the place after the last draw read. The child at place `k`
/// is the tree of the parent at `k / 2`, or a mutant of it where `k` is odd, as long as
/// that parent is a survivor; after that it is a tree grown at random. None is scored.
pub open spec fn offspring(
    parents: Seq<UniverseMember>,
    survivors: usize,
    max_depth: nat,
    f: spec_fn(BinaryOp, Number, Number) -> Number,
    stream: Seq<Draw>,
    at: int,
    count: nat,
) -> (Seq<UniverseMember>, int)
    decreases count,
{
    if count == 0 {
        (Seq::empty(), at)
    } else {
        let earlier = offspring(parents, survivors, max_depth, f, stream, at, (count - 1) as nat);
        let k = count - 1;
        let child = if k / 2 < survivors {
            if k % 2 == 0 {
                (parents[k / 2].tree, earlier.1)
            } else {
                parents[k / 2].tree.mutation(f, stream, earlier.1)
            }
        } else {
            ExprTree::growth(max_depth, stream, earlier.1)
        };
        (
            earlier.0.push(
                UniverseMember { tree: child.0, fitness: Number { inner: NEGATIVE_INFINITY_BITS } },
            ),
            child.1,
        )
    }
}

/// The generation that follows `before`, under the scores `g`, the arithmetic `f` and
/// the draws from place `at` on: `before` scored and ranked, the offspring of that,
/// scored and ranked.
pub open spec fn generation(
    before: Seq<UniverseMember>,
    survivors: usize,
    max_depth: nat,
    g: spec_fn(ExprTree) -> Number,
    f: spec_fn(BinaryOp, Number, Number) -> Number,
    stream: Seq<Draw>,
    at: int,
) -> Seq<UniverseMember> {
    let parents = ranking(scoring(before, g));
    let children = offspring(parents, survivors, max_depth, f, stream, at, before.len()).0;
    ranking(scoring(children, g))
}

/// A new population reads its draws from `at` on and never goes back.
pub proof fn lemma_population_advances(max_depth: nat, stream: Seq<Draw>, at: int, count: nat)
    ensures
        population(max_depth, stream, at, count).1 >= at,
        population(max_depth, stream, at, count).0.len() == count,
        count > 0 ==> population(max_depth, stream, at, count).1 > population(
            max_depth,
            stream,
            at,
            (count - 1) as nat,
        ).1,
    decreases count,
{
    if count > 0 {
        lemma_population_advances(max_depth, stream, at, (count - 1) as nat);
        let earlier = population(max_depth, stream, at, (count - 1) as nat);
        ExprTree::lemma_growth_advances(max_depth, stream, earlier.1);
    }
}

/// A new population depends on the draws it reads and on no others.
pub proof fn lemma_population_reads_its_draws(
    max_depth: nat,
    shorter: Seq<Draw>,
    longer: Seq<Draw>,
    at: int,
    count: nat,
)
    requires
        0 <= at,
        continues(shorter, longer),
        population(max_depth, shorter, at, count).1 <= shorter.len(),
    ensures
        population(max_depth, longer, at, count) == population(max_depth, shorter, at, count),
    decreases count,
{
    if count > 0 {
        lemma_population_advances(max_depth, shorter, at, count);
        lemma_population_advances(max_depth, shorter, at, (count - 1) as nat);
        lemma_population_reads_its_draws(max_depth, shorter, longer, at, (count - 1) as nat);
        let earlier = population(max_depth, shorter, at, (count - 1) as nat);
        ExprTree::lemma_growth_reads_its_draws(max_depth, shorter, longer, earlier.1);
    }
}

/// Offspring read their draws from `at` on and never go back.
pub proof fn lemma_offspring_advances(
    parents: Seq<UniverseMember>,
    survivors: usize,
    max_depth: nat,
    f: spec_fn(BinaryOp, Number, Number) -> Number,
    stream: Seq<Draw>,
    at: int,
    count: nat,
)
    ensures
        offspring(parents, survivors, max_depth, f, stream, at, count).1 >= at,
        offspring(parents, survivors, max_depth, f, stream, at, count).0.len() == count,
        count > 0 ==> offspring(parents, survivors, max_depth, f, stream, at, count).1 >= offspring(
            parents,
            survivors,
            max_depth,
            f,
            stream,
            at,
            (count - 1) as nat,
        ).1,
    decreases count,
{
    if count > 0 {
        lemma_offspring_advances(parents, survivors, max_depth, f, stream, at, (count - 1) as nat);
        let earlier = offspring(parents, survivors, max_depth, f, stream, at, (count - 1) as nat);
        let k = count - 1;
        ExprTree::lemma_growth_advances(max_depth, stream, earlier.1);
        parents[k / 2].tree.lemma_mutation_advances(f, stream, earlier.1);
    }
}

/// Offspring depend on the draws they read and on no others.
pub proof fn lemma_offspring_reads_its_draws(
    parents: Seq<UniverseMember>,
    survivors: usize,
    max_depth: nat,
    f: spec_fn(BinaryOp, Number, Number) -> Number,
    shorter: Seq<Draw>,
    longer: Seq<Draw>,
    at: int,
    count: nat,
)
    requires
        0 <= at,
        continues(shorter, longer),
        offspring(parents, survivors, max_depth, f, shorter, at, count).1 <= shorter.len(),
    ensures
        offspring(parents, survivors, max_depth, f, longer, at, count) == offspring(
            parents,
            survivors,
            max_depth,
            f,
            shorter,
            at,
            count,
        ),
    decreases count,
{
    if count > 0 {
        lemma_offspring_advances(parents, survivors, max_depth, f, shorter, at, count);
        lemma_offspring_advances(parents, survivors, max_depth, f, shorter, at, (count - 1) as nat);
        lemma_offspring_reads_its_draws(
            parents,
            survivors,
            max_depth,
            f,
            shorter,
            longer,
            at,
            (count - 1) as nat,
        );
        let earlier = offspring(parents, survivors, max_depth, f, shorter, at, (count - 1) as nat);
        let k = count - 1;
        if k / 2 < survivors {
            if k % 2 != 0 {
                parents[k / 2].tree.lemma_mutation_reads_its_draws(f, shorter, longer, earlier.1);
            }
        } else {
            ExprTree::lemma_growth_reads_its_draws(max_depth, shorter, longer, earlier.1);
        }
    }
}

/// `par_iter`, `map` and `collect` of rayon, on the members of a population: the objective
/// is called once on each member's tree, on whatever thread, and the scores come back in
/// the order of the members.
#[verifier::external_body]
fn scores_in_parallel<F: Fn(&ExprTree) -> Number + Sync + Send>(
    members: &Vec<UniverseMember>,
    objective: &F,
) -> (scores: Vec<Number>)
    requires
        forall|i: int| 0 <= i < members@.len() ==> call_requires(*objective, (&members@[i].tree,)),
    ensures
        scores@.len() == members@.len(),
        forall|i: int|
            0 <= i < members@.len() ==> call_ensures(
                *objective,
                (&members@[i].tree,),
                #[trigger] scores@[i],
            ),
{
    members.par_iter().map(|member| objective(&member.tree)).collect()
}

/// The fitness kept for a score: the score itself, or the lowest there is where the score
/// is not a number.
pub fn fitness_for(score: Number) -> (fitness: Number)
    ensures
        fitness == fitness_of(score),
        !fitness.is_nan_spec(),
{
    if score.is_nan() {
        Number::lowest()
    } else {
        score
    }
}

/// Gives every member the fitness kept for the score at its place.
pub fn with_scores(members: Vec<UniverseMember>, scores: &Vec<Number>) -> (out: Vec<UniverseMember>)
    requires
        scores@.len() == members@.len(),
    ensures
        out@.len() == members@.len(),
        forall|i: int|
            0 <= i < members@.len() ==> (#[trigger] out@[i]).tree == members@[i].tree
                && out@[i].fitness == fitness_of(scores@[i]),
{
    let ghost before = members@;
    let mut out = members;
    let mut i: usize = 0;
    while i < out.len()
        invariant
            i <= out@.len(),
            out@.len() == before.len(),
            scores@.len() == before.len(),
            forall|j: int| 0 <= j < before.len() ==> (#[trigger] out@[j]).tree == before[j].tree,
            forall|j: int| 0 <= j < i ==> (#[trigger] out@[j]).fitness == fitness_of(scores@[j]),
        decreases out@.len() - i,
    {
        out[i].fitness = fitness_for(scores[i]);
        i += 1;
    }
    out
}

/// A population of fixed size, of which the fittest survive each generation.
#[derive(Debug)]
pub struct Universe {
    members: Vec<UniverseMember>,
    survivors: usize,
    arity: usize,
    max_depth: usize,
}

/// What stands in the way of a universe of `size` members with `survivors` survivors
/// over `arity` inputs, if anything does.
pub open spec fn configuration_error(size: usize, survivors: usize, arity: usize) -> Option<
    ConfigurationError,
> {
    if size == 0 {
        Some(ConfigurationError::EmptyPopulation)
    } else if survivors == 0 {
        Some(ConfigurationError::NoSurvivors)
    } else if survivors > size {
        Some(ConfigurationError::TooManySurvivors)
    } else if arity == 0 {
        Some(ConfigurationError::NoInputs)
    } else {
        None
    }
}

impl Universe {
    /// The members, in their order.
    pub closed spec fn view(&self) -> Seq<UniverseMember> {
        self.members@
    }

    /// How many members survive a generation.
    pub closed spec fn spec_survivors(&self) -> usize {
        self.survivors
    }

    /// The number of inputs that trees may refer to.
    pub closed spec fn spec_arity(&self) -> usize {
        self.arity
    }

    /// The height that trees grown at random do not exceed.
    pub closed spec fn spec_max_depth(&self) -> usize {
        self.max_depth
    }

    /// At least one member survives, no more than there are, and there is an input.
    pub open spec fn well_formed(&self) -> bool {
        &&& 1 <= self.spec_survivors() <= self@.len()
        &&& self.spec_arity() >= 1
    }

    #[verifier::type_invariant]
    spec fn holds_together(&self) -> bool {
        self.well_formed()
    }

    /// The other universe is set up as this one: as many members and survivors, the same
    /// inputs and depth.
    pub open spec fn same_settings(&self, other: &Universe) -> bool {
        &&& self@.len() == other@.len()
        &&& self.spec_survivors() == other.spec_survivors()
        &&& self.spec_arity() == other.spec_arity()
        &&& self.spec_max_depth() == other.spec_max_depth()
    }

    /// How many members there are.
    pub fn size(&self) -> (n: usize)
        ensures
            n == self@.len(),
            n >= 1,
    {
        proof {
            use_type_invariant(self);
        }
        self.members.len()
    }

    /// How many members survive a generation.
    #[verifier::when_used_as_spec(spec_survivors)]
    pub fn survivors(&self) -> (n: usize)
        ensures
            n == self.spec_survivors(),
            1 <= n <= self@.len(),
    {
        proof {
            use_type_invariant(self);
        }
        self.survivors
    }

    /// The number of inputs that trees may refer to.
    #[verifier::when_used_as_spec(spec_arity)]
    pub fn arity(&self) -> (n: usize)
        ensures
            n == self.spec_arity(),
            n >= 1,
    {
        proof {
            use_type_invariant(self);
        }
        self.arity
    }

    /// The height that trees grown at random do not exceed.
    #[verifier::when_used_as_spec(spec_max_depth)]
    pub fn max_depth(&self) -> (n: usize)
        ensures
            n == self.spec_max_depth(),
    {
        self.max_depth
    }

    /// The members, in their order.
    pub fn members(&self) -> (members: &Vec<UniverseMember>)
        ensures
            members@ == self@,
    {
        &self.members
    }

    /// The first member: the fittest, once the universe is ranked.
    pub fn best(&self) -> (member: &UniverseMember)
        ensures
            self@.len() >= 1,
            *member == self@[0],
    {
        proof {
            use_type_invariant(self);
        }
        &self.members[0]
    }

    /// A universe of `size` trees grown at random to at most `max_depth`, none of them
    /// scored yet. It is refused where nobody would be in it, nobody or more than
    /// all would survive, or there would be no input.
    pub fn new<U: Fn() -> Number>(
        size: usize,
        survivors: usize,
        arity: usize,
        max_depth: usize,
        rng: &mut RandomSource<U>,
    ) -> (made: Result<Universe, ConfigurationError>)
        requires
            old(rng).ready(),
        ensures
            final(rng).unit() == old(rng).unit(),
            match made {
                Ok(universe) => {
                    &&& configuration_error(size, survivors, arity) is None
                    &&& continues(old(rng).drawn(), final(rng).drawn())
                    &&& population(
                        max_depth as nat,
                        final(rng).drawn(),
                        old(rng).drawn().len() as int,
                        size as nat,
                    ) == (universe@, final(rng).drawn().len() as int)
                    &&& universe@.len() == size
                    &&& universe.spec_survivors() == survivors
                    &&& universe.spec_arity() == arity
                    &&& universe.spec_max_depth() == max_depth
                    &&& universe.well_formed()
                    &&& forall|i: int|
                        0 <= i < size ==> (#[trigger] universe@[i]).fitness@ == NEGATIVE_INFINITY_BITS
                            && universe@[i].tree.grown(max_depth as nat, arity, old(rng).unit())
                },
                Err(error) => configuration_error(size, survivors, arity) == Some(error)
                    && final(rng).drawn() == old(rng).drawn(),
            },
    {
        let ghost start = rng.drawn().len() as int;
        if size == 0 {
            return Err(ConfigurationError::EmptyPopulation);
        }
        if survivors == 0 {
            return Err(ConfigurationError::NoSurvivors);
        }
        if survivors > size {
            return Err(ConfigurationError::TooManySurvivors);
        }
        if arity == 0 {
            return Err(ConfigurationError::NoInputs);
        }
        let mut members: Vec<UniverseMember> = Vec::new();
        let mut i: usize = 0;
        while i < size
            invariant
                i <= size,
                arity >= 1,
                members@.len() == i,
                rng.ready(),
                rng.unit() == old(rng).unit(),
                start == old(rng).drawn().len(),
                continues(old(rng).drawn(), rng.drawn()),
                population(max_depth as nat, rng.drawn(), start, i as nat) == (
                    members@,
                    rng.drawn().len() as int,
                ),
                forall|j: int|
                    0 <= j < i ==> (#[trigger] members@[j]).fitness@ == NEGATIVE_INFINITY_BITS
                        && members@[j].tree.grown(max_depth as nat, arity, old(rng).unit()),
            decreases size - i,
        {
            let ghost earlier = rng.drawn();
            let tree = ExprTree::random(max_depth, arity, rng);
            members.push(UniverseMember { tree, fitness: Number::lowest() });
            proof {
                lemma_population_reads_its_draws(
                    max_depth as nat,
                    earlier,
                    rng.drawn(),
                    start,
                    i as nat,
                );
            }
            i += 1;
        }
        Ok(Universe { members, survivors, arity, max_depth })
    }

    /// Gives every member the fitness that the objective gives for its tree, each at its
    /// own place: the score itself, or the lowest fitness where the score is not a number.
    /// The objective may be called on several threads at once.
    pub fn evaluate<F: Fn(&ExprTree) -> Number + Sync + Send>(self, objective: &F) -> (next: Universe)
        requires
            accepts_all(*objective),
        ensures
            next.same_settings(&self),
            next.well_formed(),
            scores_of(self@, *objective, next@),
            all_scored(next@, *objective),
            forall|g: spec_fn(ExprTree) -> Number| #[trigger]
                models(*objective, g) ==> next@ == scoring(self@, g),
    {
        proof {
            use_type_invariant(&self);
        }
        let ghost before = self@;
        let Universe { members, survivors, arity, max_depth } = self;
        let scores = scores_in_parallel(&members, objective);
        let scored_members = with_scores(members, &scores);
        proof {
            assert forall|i: int| 0 <= i < scored_members@.len() implies scored(
                #[trigger] scored_members@[i],
                *objective,
            ) by {
                assert(call_ensures(*objective, (&scored_members@[i].tree,), scores@[i]));
            }
            assert forall|g: spec_fn(ExprTree) -> Number| #[trigger]
                models(*objective, g) implies scored_members@ == scoring(before, g) by {
                lemma_scores_are_the_scoring(before, *objective, g, scored_members@);
            }
        }
        Universe { members: scored_members, survivors, arity, max_depth }
    }

    /// Puts the members in the order of falling fitness. Members of equal fitness keep
    /// the order in which they stood.
    pub fn rank(self) -> (next: Universe)
        ensures
            next.same_settings(&self),
            next.well_formed(),
            ranking_of(self@, next@),
            next@ == ranking(self@),
            ranked(next@),
    {
        proof {
            use_type_invariant(&self);
        }
        let Universe { members, survivors, arity, max_depth } = self;
        let sorted = rank_members(members);
        Universe { members: sorted, survivors, arity, max_depth }
    }

    /// Evaluates every member, then ranks them.
    pub fn sort<F: Fn(&ExprTree) -> Number + Sync + Send>(self, objective: &F) -> (next: Universe)
        requires
            accepts_all(*objective),
        ensures
            next.same_settings(&self),
            next.well_formed(),
            sorts_to(self@, *objective, next@),
            ranked(next@),
            all_scored(next@, *objective),
            forall|g: spec_fn(ExprTree) -> Number| #[trigger]
                models(*objective, g) ==> next@ == ranking(scoring(self@, g)),
    {
        let evaluated = self.evaluate(objective);
        let next = evaluated.rank();
        proof {
            lemma_ranking_keeps_scores(evaluated@, next@, *objective);
        }
        next
    }

    /// Breeds the next generation from the members as they stand: each of the first
    /// `survivors` members, in order, gives a copy of its tree and then a mutant of it,
    /// until the population is full; places that are left get trees grown at random.
    /// Nobody in the new generation is scored.
    pub fn breed<U: Fn() -> Number, A: Fn(BinaryOp, Number, Number) -> Number>(
        self,
        rng: &mut RandomSource<U>,
        arith: &A,
    ) -> (next: Universe)
        requires
            old(rng).ready(),
            is_total(*arith),
        ensures
            final(rng).unit() == old(rng).unit(),
            next.same_settings(&self),
            next.well_formed(),
            offspring_of(
                self@,
                self.spec_survivors(),
                self.spec_arity(),
                self.spec_max_depth(),
                old(rng).unit(),
                *arith,
                next@,
            ),
            continues(old(rng).drawn(), final(rng).drawn()),
            forall|f: spec_fn(BinaryOp, Number, Number) -> Number| #[trigger]
                computes(*arith, f) ==> offspring(
                    self@,
                    self.spec_survivors(),
                    self.spec_max_depth() as nat,
                    f,
                    final(rng).drawn(),
                    old(rng).drawn().len() as int,
                    self@.len(),
                ) == (next@, final(rng).drawn().len() as int),
    {
        proof {
            use_type_invariant(&self);
        }
        let ghost start = rng.drawn().len() as int;
        let size = self.members.len();
        let mut children: Vec<UniverseMember> = Vec::new();
        let mut k: usize = 0;
        while k < size
            invariant
                k <= size,
                size == self.members@.len(),
                self.arity >= 1,
                children@.len() == k,
                rng.ready(),
                rng.unit() == old(rng).unit(),
                is_total(*arith),
                1 <= self.survivors <= size,
                start == old(rng).drawn().len(),
                continues(old(rng).drawn(), rng.drawn()),
                forall|f: spec_fn(BinaryOp, Number, Number) -> Number| #[trigger]
                    computes(*arith, f) ==> offspring(
                        self.members@,
                        self.survivors,
                        self.max_depth as nat,
                        f,
                        rng.drawn(),
                        start,
                        k as nat,
                    ) == (children@, rng.drawn().len() as int),
                forall|j: int|
                    0 <= j < k ==> child_of(
                        self.members@,
                        self.survivors,
                        self.arity,
                        self.max_depth,
                        old(rng).unit(),
                        *arith,
                        j,
                        #[trigger] children@[j],
                    ),
            decreases size - k,
        {
            let ghost earlier = rng.drawn();
            let ghost earlier_children = children@;
            let tree = if k / 2 < self.survivors {
                let copy = self.members[k / 2].tree.clone();
                if k % 2 == 0 {
                    copy
                } else {
                    copy.mutated(self.arity, rng, arith)
                }
            } else {
                ExprTree::random(self.max_depth, self.arity, rng)
            };
            children.push(UniverseMember { tree, fitness: Number::lowest() });
            proof {
                assert forall|f: spec_fn(BinaryOp, Number, Number) -> Number| #[trigger]
                    computes(*arith, f) implies offspring(
                    self.members@,
                    self.survivors,
                    self.max_depth as nat,
                    f,
                    rng.drawn(),
                    start,
                    (k + 1) as nat,
                ) == (children@, rng.drawn().len() as int) by {
                    lemma_offspring_reads_its_draws(
                        self.members@,
                        self.survivors,
                        self.max_depth as nat,
                        f,
                        earlier,
                        rng.drawn(),
                        start,
                        k as nat,
                    );
                }
            }
            k += 1;
        }
        Universe {
            members: children,
            survivors: self.survivors,
            arity: self.arity,
            max_depth: self.max_depth,
        }
    }

    /// The next generation: the members are evaluated and ranked, the survivors breed,
    /// and the new generation is evaluated and ranked.
    pub fn step<
        F: Fn(&ExprTree) -> Number + Sync + Send,
        U: Fn() -> Number,
        A: Fn(BinaryOp, Number, Number) -> Number,
    >(self, objective: &F, rng: &mut RandomSource<U>, arith: &A) -> (next: Universe)
        requires
            accepts_all(*objective),
            old(rng).ready(),
            is_total(*arith),
        ensures
            final(rng).unit() == old(rng).unit(),
            next.same_settings(&self),
            next.well_formed(),
            generation_of(
                self@,
                self.spec_survivors(),
                self.spec_arity(),
                self.spec_max_depth(),
                *objective,
                old(rng).unit(),
                *arith,
                next@,
            ),
            ranked(next@),
            all_scored(next@, *objective),
            deterministic(*objective) && all_scored(self@, *objective) ==> forall|i: int|
                0 <= i < self@.len() ==> next@[0].fitness.rank() >= (#[trigger] self@[i]).fitness.rank(),
            continues(old(rng).drawn(), final(rng).drawn()),
            forall|g: spec_fn(ExprTree) -> Number, f: spec_fn(BinaryOp, Number, Number) -> Number|
                #![trigger models(*objective, g), computes(*arith, f)]
                models(*objective, g) && computes(*arith, f) ==> next@ == generation(
                    self@,
                    self.spec_survivors(),
                    self.spec_max_depth() as nat,
                    g,
                    f,
                    final(rng).drawn(),
                    old(rng).drawn().len() as int,
                ),
    {
        proof {
            use_type_invariant(&self);
        }
        let parents = self.sort(objective);
        let children = parents.breed(rng, arith);
        let next = children.sort(objective);
        proof {
            assert(offspring_of(
                parents@,
                self.spec_survivors(),
                self.spec_arity(),
                self.spec_max_depth(),
                old(rng).unit(),
                *arith,
                children@,
            ));
            assert(generation_of(
                self@,
                self.spec_survivors(),
                self.spec_arity(),
                self.spec_max_depth(),
                *objective,
                old(rng).unit(),
                *arith,
                next@,
            ));
            if deterministic(*objective) && all_scored(self@, *objective) {
                lemma_elitism(
                    self@,
                    self.spec_survivors(),
                    self.spec_arity(),
                    self.spec_max_depth(),
                    *objective,
                    old(rng).unit(),
                    *arith,
                    next@,
                );
            }
        }
        next
    }
}

} // verus!
