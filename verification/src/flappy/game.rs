//! The population and its generational loop: scoring, selection, breeding.

use vstd::prelude::*;
use crate::error::EngineError;
use crate::flappy::bird::{is_offspring, Bird};
use crate::matrix::is_drawn;
use crate::nn::{ActivationFunction, NeuralNetwork};
use crate::scalar::{is_difference, is_exact, is_less, is_ratio, is_zero, Scalar};

verus! {

/// Inputs of every individual's network.
pub const INPUT_NODES: i32 = 5;

/// Hidden units of every individual's network.
pub const HIDDEN_NODES: i32 = 8;

/// Outputs of every individual's network.
pub const OUTPUT_NODES: i32 = 2;

/// Ticks between two obstacles.
pub const PIPE_INTERVAL: u32 = 75;

/// The mathematical content of a [`Game`].
pub struct Population<T, F, D> {
    /// Ticks since the episode began.
    pub counter: u32,
    /// Index of the individual that reached the highest score so far.
    pub best_bird: Option<usize>,
    /// The highest score so far.
    pub high_score: u64,
    /// Whether only the best individual is run.
    pub run_best: bool,
    /// Indices of the individuals that are alive, in rising order.
    pub active_birds: Seq<usize>,
    /// All individuals.
    pub all_birds: Seq<Bird<T, F, D>>,
}

impl<T, F, D> Population<T, F, D> {
    /// There is an individual, the alive indices rise and name individuals,
    /// and so does the best index.
    pub open spec fn wf(self) -> bool {
        &&& self.all_birds.len() > 0
        &&& forall|k: int|
            0 <= k < self.active_birds.len() ==> #[trigger] self.active_birds[k]
                < self.all_birds.len()
        &&& forall|k: int, l: int|
            0 <= k < l < self.active_birds.len() ==> self.active_birds[k] < self.active_birds[l]
        &&& match self.best_bird {
            Some(b) => b < self.all_birds.len(),
            None => true,
        }
    }

    /// Every individual is alive.
    pub open spec fn all_active(self) -> bool {
        &&& self.active_birds.len() == self.all_birds.len()
        &&& forall|k: int| 0 <= k < self.active_birds.len() ==> self.active_birds[k] == k
    }
}

/// The scores of `birds` added up.
pub open spec fn total_score<T, F, D>(birds: Seq<Bird<T, F, D>>) -> nat
    decreases birds.len(),
{
    if birds.len() == 0 {
        0
    } else {
        total_score(birds.drop_last()) + birds.last().score as nat
    }
}

/// A population of individuals and the state of its current episode.
pub struct Game<T, F, D> {
    counter: u32,
    best_bird: Option<usize>,
    high_score: u64,
    run_best: bool,
    active_birds: Vec<usize>,
    all_birds: Vec<Bird<T, F, D>>,
}

impl<T, F, D> View for Game<T, F, D> {
    type V = Population<T, F, D>;

    closed spec fn view(&self) -> Population<T, F, D> {
        Population {
            counter: self.counter,
            best_bird: self.best_bird,
            high_score: self.high_score,
            run_best: self.run_best,
            active_birds: self.active_birds@,
            all_birds: self.all_birds@,
        }
    }
}

/// `after` holds the individuals of `before` with their fitness normalized:
/// each has for its fitness a quotient of its score and the total score. Where
/// the total score is zero, `after` is `before`.
pub open spec fn is_normalized<T: Scalar, F, D>(
    before: Seq<Bird<T, F, D>>,
    after: Seq<Bird<T, F, D>>,
) -> bool {
    if total_score(before) == 0 {
        after == before
    } else {
        &&& after.len() == before.len()
        &&& forall|i: int|
            0 <= i < after.len() ==> {
                &&& (#[trigger] after[i]).brain == before[i].brain
                &&& after[i].score == before[i].score
                &&& is_ratio(before[i].score, total_score(before) as u128, after[i].fitness)
            }
    }
}

/// `rest` holds, one after the other, what remains of `r` as the fitness of
/// the individuals is taken from it in their order, and all that remains
/// before the last was found positive.
pub open spec fn is_walk<T: Scalar, F, D>(
    birds: Seq<Bird<T, F, D>>,
    r: T,
    zero: T,
    rest: Seq<T>,
) -> bool {
    &&& 0 < rest.len() <= birds.len()
    &&& is_difference(r, birds[0].fitness, rest[0])
    &&& forall|k: int|
        0 < k < rest.len() ==> is_difference(rest[k - 1], birds[k].fitness, #[trigger] rest[k])
    &&& forall|k: int| 0 <= k < rest.len() - 1 ==> is_less(zero, #[trigger] rest[k], true)
}

/// The roulette wheel stops at `index` on the draw `r`: `index` is the first
/// individual after whose fitness was taken from `r`, in turn after that of
/// those before it, what remains was not found positive; or the last
/// individual, where that happens for none before it.
pub open spec fn is_selected<T: Scalar, F, D>(birds: Seq<Bird<T, F, D>>, r: T, index: int) -> bool {
    exists|zero: T, rest: Seq<T>|
        is_zero(zero) && #[trigger] is_walk(birds, r, zero, rest) && rest.len() == index + 1 && (
        index == birds.len() - 1 || is_less(zero, rest[index], false))
}

/// The roulette wheel stops at `index` on some draw from `draw`.
pub open spec fn is_chosen<T: Scalar, F, D, G: Fn() -> T>(
    birds: Seq<Bird<T, F, D>>,
    draw: G,
    index: int,
) -> bool {
    exists|r: T| call_ensures(draw, (), r) && #[trigger] is_selected(birds, r, index)
}

/// `child` is bred from `parents`: it is fresh, and its network is an
/// offspring of that of a parent at which the roulette wheel stops.
pub open spec fn is_bred<T: Scalar, F: Fn(T) -> T + Copy, D: Fn(T) -> T + Copy, G: Fn() -> T, C: Fn() -> T, N: Fn() -> T>(
    parents: Seq<Bird<T, F, D>>,
    draw: G,
    chance: C,
    noise: N,
    child: Bird<T, F, D>,
) -> bool {
    &&& child.fresh()
    &&& exists|a: int|
        0 <= a < parents.len() && #[trigger] is_chosen(parents, draw, a) && is_offspring(
            parents[a].brain,
            chance,
            noise,
            child.brain,
        )
}

/// Those of `active` whose flag in `survived` is set, in their order.
pub open spec fn kept(active: Seq<usize>, survived: Seq<bool>) -> Seq<usize>
    decreases active.len(),
{
    if active.len() == 0 {
        Seq::empty()
    } else if survived.last() {
        kept(active.drop_last(), survived.drop_last()).push(active.last())
    } else {
        kept(active.drop_last(), survived.drop_last())
    }
}

/// The individual at place `k` of `active` leads: it has scored, more than
/// every alive individual before it and no less than any after it.
pub open spec fn leads<T, F, D>(birds: Seq<Bird<T, F, D>>, active: Seq<usize>, k: int) -> bool {
    &&& 0 <= k < active.len()
    &&& birds[active[k] as int].score > 0
    &&& forall|j: int| 0 <= j < k ==> birds[#[trigger] active[j] as int].score < birds[active[k] as int].score
    &&& forall|j: int|
        k <= j < active.len() ==> birds[#[trigger] active[j] as int].score <= birds[active[k] as int].score
}

/// Where what remains of the draw after the first individual's fitness is
/// taken from it is never found positive, the roulette wheel stops at the
/// first individual.
pub proof fn lemma_first_takes_all<T: Scalar, F, D>(birds: Seq<Bird<T, F, D>>, r: T, index: int)
    requires
        is_selected(birds, r, index),
        forall|zero: T, left: T|
            is_zero(zero) && is_difference(r, birds[0].fitness, left) ==> !#[trigger] is_less(
                zero,
                left,
                true,
            ),
    ensures
        index == 0,
{
    let (zero, rest) = choose|zero: T, rest: Seq<T>|
        is_zero(zero) && #[trigger] is_walk(birds, r, zero, rest) && rest.len() == index + 1 && (index
            == birds.len() - 1 || is_less(zero, rest[index], false));
    if index > 0 {
        assert(is_less(zero, rest[0], true));
    }
}

/// With exact arithmetic two walks of the roulette wheel on one draw agree as
/// far as both go.
pub proof fn lemma_walk_unique<T: Scalar, F, D>(
    birds: Seq<Bird<T, F, D>>,
    r: T,
    zero: T,
    rest: Seq<T>,
    other: Seq<T>,
    k: int,
)
    requires
        is_exact::<T>(),
        is_walk(birds, r, zero, rest),
        is_walk(birds, r, zero, other),
        0 <= k < rest.len(),
        k < other.len(),
    ensures
        rest[k] == other[k],
    decreases k,
{
    if k > 0 {
        lemma_walk_unique(birds, r, zero, rest, other, k - 1);
        assert(is_difference(rest[k - 1], birds[k].fitness, rest[k]));
        assert(is_difference(other[k - 1], birds[k].fitness, other[k]));
    }
}

/// With exact arithmetic the roulette wheel stops at one individual on each
/// draw.
pub proof fn lemma_selected_unique<T: Scalar, F, D>(
    birds: Seq<Bird<T, F, D>>,
    r: T,
    index: int,
    other: int,
)
    requires
        is_exact::<T>(),
        is_selected(birds, r, index),
        is_selected(birds, r, other),
    ensures
        index == other,
{
    let (z1, rest1) = choose|zero: T, rest: Seq<T>|
        is_zero(zero) && #[trigger] is_walk(birds, r, zero, rest) && rest.len() == index + 1 && (index
            == birds.len() - 1 || is_less(zero, rest[index], false));
    let (z2, rest2) = choose|zero: T, rest: Seq<T>|
        is_zero(zero) && #[trigger] is_walk(birds, r, zero, rest) && rest.len() == other + 1 && (other
            == birds.len() - 1 || is_less(zero, rest[other], false));
    if index < other {
        lemma_walk_unique(birds, r, z1, rest1, rest2, index);
        assert(is_less(z2, rest2[index], true));
    } else if other < index {
        lemma_walk_unique(birds, r, z1, rest1, rest2, other);
        assert(is_less(z1, rest1[other], true));
    }
}

/// A tick brings nobody back: those kept are no more than there were, and
/// each of them was there before.
pub proof fn lemma_kept_shrinks(active: Seq<usize>, survived: Seq<bool>)
    requires
        active.len() == survived.len(),
    ensures
        kept(active, survived).len() <= active.len(),
        forall|index: usize| kept(active, survived).contains(index) ==> active.contains(index),
    decreases active.len(),
{
    if active.len() > 0 {
        let rest = kept(active.drop_last(), survived.drop_last());
        lemma_kept_shrinks(active.drop_last(), survived.drop_last());
        assert forall|index: usize| kept(active, survived).contains(index) implies active.contains(
            index,
        ) by {
            let k = choose|k: int|
                0 <= k < kept(active, survived).len() && kept(active, survived)[k] == index;
            if k < rest.len() {
                assert(rest[k] == index);
                assert(kept(active.drop_last(), survived.drop_last()).contains(index));
                assert(active.drop_last().contains(index));
                let m = choose|m: int|
                    0 <= m < active.drop_last().len() && active.drop_last()[m] == index;
                assert(active[m] == index);
            } else {
                assert(active[active.len() - 1] == index);
            }
        }
    }
}

/// The total score of some individuals is at most `u64::MAX` for each.
pub proof fn lemma_total_score_bound<T, F, D>(birds: Seq<Bird<T, F, D>>)
    ensures
        total_score(birds) <= birds.len() * u64::MAX,
    decreases birds.len(),
{
    if birds.len() > 0 {
        lemma_total_score_bound(birds.drop_last());
        assert((birds.len() - 1) * u64::MAX + u64::MAX == birds.len() * u64::MAX)
            by (nonlinear_arith);
    }
}

/// The total score is zero exactly when no individual has scored.
pub proof fn lemma_total_score_zero<T, F, D>(birds: Seq<Bird<T, F, D>>)
    ensures
        total_score(birds) == 0 <==> forall|i: int|
            0 <= i < birds.len() ==> (#[trigger] birds[i]).score == 0,
    decreases birds.len(),
{
    if birds.len() > 0 {
        let front = birds.drop_last();
        lemma_total_score_zero(front);
        if total_score(birds) == 0 {
            assert forall|i: int| 0 <= i < birds.len() implies (#[trigger] birds[i]).score == 0 by {
                if i < front.len() {
                    assert(front[i].score == 0);
                }
            }
        }
        if forall|i: int| 0 <= i < birds.len() ==> (#[trigger] birds[i]).score == 0 {
            assert forall|i: int| 0 <= i < front.len() implies (#[trigger] front[i]).score == 0 by {
                assert(birds[i].score == 0);
            }
            assert(birds[birds.len() - 1].score == 0);
        }
    }
}

impl<T: Scalar, F: Fn(T) -> T + Copy, D: Fn(T) -> T + Copy> Game<T, F, D> {
    /// A population of `total_population` fresh individuals, all alive, whose
    /// networks, of 5 inputs, 8 hidden units and 2 outputs, have weights and
    /// biases drawn from `draw`.
    ///
    /// Fails with [`EngineError::InvalidConfiguration`] exactly when
    /// `total_population` is zero.
    pub fn new<G: Fn() -> T>(
        total_population: usize,
        draw: &G,
        activation: ActivationFunction<F, D>,
    ) -> (r: Result<Game<T, F, D>, EngineError>)
        requires
            call_requires(*draw, ()),
        ensures
            match r {
                Ok(game) => {
                    &&& total_population > 0
                    &&& game@.wf()
                    &&& game@.all_active()
                    &&& game@.all_birds.len() == total_population
                    &&& game@.counter == 0
                    &&& game@.best_bird is None
                    &&& game@.high_score == 0
                    &&& !game@.run_best
                    &&& forall|i: int|
                        0 <= i < total_population ==> {
                            let bird = #[trigger] game@.all_birds[i];
                            &&& bird.fresh()
                            &&& bird.brain.shaped()
                            &&& bird.brain.input_nodes == INPUT_NODES
                            &&& bird.brain.hidden_nodes == HIDDEN_NODES
                            &&& bird.brain.output_nodes == OUTPUT_NODES
                            &&& bird.brain.activation_function == activation
                            &&& is_ratio(1, 10, bird.brain.learning_rate)
                            &&& is_drawn(*draw, bird.brain.weights_ih@)
                            &&& is_drawn(*draw, bird.brain.weights_ho@)
                            &&& is_drawn(*draw, bird.brain.bias_h@)
                            &&& is_drawn(*draw, bird.brain.bias_o@)
                        }
                },
                Err(e) => e == EngineError::InvalidConfiguration && total_population == 0,
            },
    {
        if total_population == 0 {
            return Err(EngineError::InvalidConfiguration);
        }
        let mut active_birds: Vec<usize> = Vec::new();
        let mut all_birds: Vec<Bird<T, F, D>> = Vec::new();
        let mut i: usize = 0;
        while i < total_population
            invariant
                i <= total_population,
                call_requires(*draw, ()),
                all_birds@.len() == i,
                active_birds@.len() == i,
                forall|k: int| 0 <= k < i ==> active_birds@[k] == k,
                forall|k: int|
                    0 <= k < i ==> {
                        let bird = #[trigger] all_birds@[k];
                        &&& bird.fresh()
                        &&& bird.brain.shaped()
                        &&& bird.brain.input_nodes == INPUT_NODES
                        &&& bird.brain.hidden_nodes == HIDDEN_NODES
                        &&& bird.brain.output_nodes == OUTPUT_NODES
                        &&& bird.brain.activation_function == activation
                        &&& is_ratio(1, 10, bird.brain.learning_rate)
                        &&& is_drawn(*draw, bird.brain.weights_ih@)
                        &&& is_drawn(*draw, bird.brain.weights_ho@)
                        &&& is_drawn(*draw, bird.brain.bias_h@)
                        &&& is_drawn(*draw, bird.brain.bias_o@)
                    },
            decreases total_population - i,
        {
            let brain = match NeuralNetwork::new(
                INPUT_NODES,
                HIDDEN_NODES,
                OUTPUT_NODES,
                draw,
                activation,
            ) {
                Ok(brain) => brain,
                Err(e) => {
                    return Err(e);
                },
            };
            all_birds.push(Bird::new(brain));
            active_birds.push(i);
            i = i + 1;
        }
        Ok(
            Game {
                counter: 0,
                best_bird: None,
                high_score: 0,
                run_best: false,
                active_birds,
                all_birds,
            },
        )
    }

    /// A population of the given individuals, all alive.
    ///
    /// Fails with [`EngineError::InvalidConfiguration`] exactly when there is
    /// no individual.
    pub fn with_birds(all_birds: Vec<Bird<T, F, D>>) -> (r: Result<Game<T, F, D>, EngineError>)
        ensures
            match r {
                Ok(game) => {
                    &&& game@.wf()
                    &&& game@.all_active()
                    &&& game@.all_birds == all_birds@
                    &&& game@.counter == 0
                    &&& game@.best_bird is None
                    &&& game@.high_score == 0
                    &&& !game@.run_best
                },
                Err(e) => e == EngineError::InvalidConfiguration && all_birds@.len() == 0,
            },
    {
        if all_birds.len() == 0 {
            return Err(EngineError::InvalidConfiguration);
        }
        let active_birds = full_range(all_birds.len());
        Ok(
            Game {
                counter: 0,
                best_bird: None,
                high_score: 0,
                run_best: false,
                active_birds,
                all_birds,
            },
        )
    }

    /// Ticks since the episode began.
    pub fn counter(&self) -> (c: u32)
        ensures
            c == self@.counter,
    {
        self.counter
    }

    /// Index of the individual that reached the highest score so far.
    pub fn best_bird(&self) -> (b: Option<usize>)
        ensures
            b == self@.best_bird,
    {
        self.best_bird
    }

    /// The highest score so far.
    pub fn high_score(&self) -> (s: u64)
        ensures
            s == self@.high_score,
    {
        self.high_score
    }

    /// Whether only the best individual is run.
    pub fn run_best(&self) -> (b: bool)
        ensures
            b == self@.run_best,
    {
        self.run_best
    }

    /// Chooses whether only the best individual is run.
    pub fn set_run_best(&mut self, run_best: bool)
        ensures
            final(self)@ == (Population { run_best, ..old(self)@ }),
    {
        self.run_best = run_best;
    }

    /// Indices of the individuals that are alive.
    pub fn active_birds(&self) -> (v: &Vec<usize>)
        ensures
            v@ == self@.active_birds,
    {
        &self.active_birds
    }

    /// All individuals.
    pub fn all_birds(&self) -> (v: &Vec<Bird<T, F, D>>)
        ensures
            v@ == self@.all_birds,
    {
        &self.all_birds
    }

    /// Starts the episode over: sets the tick count to zero, and the score of
    /// the best individual, where there is one.
    pub fn reset_game(&mut self)
        requires
            old(self)@.wf(),
        ensures
            final(self)@ == (Population {
                counter: 0,
                all_birds: match old(self)@.best_bird {
                    Some(b) => old(self)@.all_birds.update(
                        b as int,
                        Bird { score: 0, ..old(self)@.all_birds[b as int] },
                    ),
                    None => old(self)@.all_birds,
                },
                ..old(self)@
            }),
            final(self)@.wf(),
    {
        self.counter = 0;
        match self.best_bird {
            Some(best_index) => {
                self.all_birds[best_index].score = 0;
                proof {
                    assert(self.all_birds@ =~= old(self)@.all_birds.update(
                        best_index as int,
                        Bird { score: 0, ..old(self)@.all_birds[best_index as int] },
                    ));
                }
            },
            None => {},
        }
    }

    /// Counts one tick, and says whether an obstacle is due on it: on every
    /// 75th tick of the episode, the first included.
    pub fn tick(&mut self) -> (due: bool)
        requires
            old(self)@.counter < u32::MAX,
        ensures
            due == (old(self)@.counter % PIPE_INTERVAL == 0),
            final(self)@ == (Population { counter: (old(self)@.counter + 1) as u32, ..old(self)@ }),
    {
        let due: bool = self.counter % PIPE_INTERVAL == 0;
        self.counter = self.counter + 1;
        due
    }

    /// The scores of all individuals added up.
    fn score_sum(&self) -> (total: u128)
        ensures
            total == total_score(self@.all_birds),
    {
        let n: usize = self.all_birds.len();
        let mut total: u128 = 0;
        let mut i: usize = 0;
        while i < n
            invariant
                i <= n,
                n == self.all_birds@.len(),
                total == total_score(self.all_birds@.take(i as int)),
            decreases n - i,
        {
            proof {
                let next = self.all_birds@.take(i + 1);
                assert(next.drop_last() =~= self.all_birds@.take(i as int));
                lemma_total_score_bound(next);
                assert(next.len() * u64::MAX <= usize::MAX * u64::MAX) by (nonlinear_arith)
                    requires
                        next.len() <= usize::MAX,
                ;
                assert(usize::MAX * u64::MAX <= u64::MAX * u64::MAX) by (nonlinear_arith)
                    requires
                        usize::MAX <= u64::MAX,
                ;
            }
            total = total + self.all_birds[i].score as u128;
            i = i + 1;
        }
        proof {
            assert(self.all_birds@.take(n as int) =~= self.all_birds@);
        }
        total
    }

    /// Gives every individual its share of the population's score for its
    /// fitness; where no individual has scored, leaves all as it is.
    pub fn normalize_fitness(&mut self)
        ensures
            is_normalized(old(self)@.all_birds, final(self)@.all_birds),
            final(self)@ == (Population { all_birds: final(self)@.all_birds, ..old(self)@ }),
    {
        let total: u128 = self.score_sum();
        if total > 0 {
            let n: usize = self.all_birds.len();
            let mut i: usize = 0;
            while i < n
                invariant
                    i <= n,
                    n == self.all_birds@.len(),
                    n == old(self)@.all_birds.len(),
                    total == total_score(old(self)@.all_birds),
                    self@ == (Population { all_birds: self@.all_birds, ..old(self)@ }),
                    forall|k: int|
                        0 <= k < n ==> {
                            &&& (#[trigger] self.all_birds@[k]).brain == old(self)@.all_birds[k].brain
                            &&& self.all_birds@[k].score == old(self)@.all_birds[k].score
                        },
                    forall|k: int|
                        0 <= k < i ==> is_ratio(
                            old(self)@.all_birds[k].score,
                            total,
                            (#[trigger] self.all_birds@[k]).fitness,
                        ),
                    forall|k: int|
                        i <= k < n ==> (#[trigger] self.all_birds@[k]) == old(self)@.all_birds[k],
                decreases n - i,
            {
                let new_fitness: T = T::ratio(self.all_birds[i].score, total);
                self.all_birds[i].fitness = new_fitness;
                i = i + 1;
            }
        }
    }
}

impl<T: Scalar, F: Fn(T) -> T + Copy, D: Fn(T) -> T + Copy> Game<T, F, D> {
    /// The individual at which the roulette wheel stops on the draw `r`.
    ///
    /// Takes the fitness of the individuals from `r`, one after the other, and
    /// stops at the first after which what remains is not positive. Where it
    /// stays positive throughout, stops at the last individual.
    pub fn select(all_birds: &[Bird<T, F, D>], r: T) -> (index: usize)
        requires
            all_birds@.len() > 0,
        ensures
            index < all_birds@.len(),
            is_selected(all_birds@, r, index as int),
    {
        let n: usize = all_birds.len();
        let zero: T = T::zero();
        let mut index: usize = 0;
        let mut left: T = r.minus(all_birds[0].fitness);
        let ghost mut rest: Seq<T> = seq![left];
        loop
            invariant
                n == all_birds@.len(),
                index < n,
                is_zero(zero),
                is_walk(all_birds@, r, zero, rest),
                rest.len() == index + 1,
                rest[index as int] == left,
            decreases all_birds@.len() - index,
        {
            if index + 1 == n {
                return index;
            }
            let positive: bool = zero.less_than(left);
            if !positive {
                return index;
            }
            index = index + 1;
            left = left.minus(all_birds[index].fitness);
            proof {
                let longer = rest.push(left);
                assert forall|k: int| 0 < k < longer.len() implies is_difference(
                    longer[k - 1],
                    all_birds@[k].fitness,
                    #[trigger] longer[k],
                ) by {
                    if k < rest.len() {
                        assert(longer[k] == rest[k]);
                        assert(longer[k - 1] == rest[k - 1]);
                    }
                }
                assert forall|k: int| 0 <= k < longer.len() - 1 implies is_less(
                    zero,
                    #[trigger] longer[k],
                    true,
                ) by {
                    assert(longer[k] == rest[k]);
                }
                rest = longer;
            }
        }
    }

    /// The individual at which the roulette wheel stops on a draw from
    /// `draw`.
    pub fn pool_selection<G: Fn() -> T>(all_birds: &[Bird<T, F, D>], draw: &G) -> (index: usize)
        requires
            all_birds@.len() > 0,
            call_requires(*draw, ()),
        ensures
            index < all_birds@.len(),
            is_chosen(all_birds@, *draw, index as int),
    {
        let r: T = draw();
        let index: usize = Self::select(all_birds, r);
        proof {
            assert(is_selected(all_birds@, r, index as int));
        }
        index
    }

    /// As many individuals as there are, each chosen by a turn of the
    /// roulette wheel of its own.
    pub fn generate<G: Fn() -> T>(all_birds: &Vec<Bird<T, F, D>>, draw: &G) -> (new_birds: Vec<usize>)
        requires
            call_requires(*draw, ()),
        ensures
            new_birds@.len() == all_birds@.len(),
            forall|k: int|
                0 <= k < new_birds@.len() ==> (#[trigger] new_birds@[k]) < all_birds@.len()
                    && is_chosen(all_birds@, *draw, new_birds@[k] as int),
    {
        let n: usize = all_birds.len();
        let mut new_birds: Vec<usize> = Vec::new();
        let mut i: usize = 0;
        while i < n
            invariant
                i <= n,
                n == all_birds@.len(),
                call_requires(*draw, ()),
                new_birds@.len() == i,
                forall|k: int|
                    0 <= k < i ==> (#[trigger] new_birds@[k]) < all_birds@.len() && is_chosen(
                        all_birds@,
                        *draw,
                        new_birds@[k] as int,
                    ),
            decreases n - i,
        {
            let index: usize = Self::pool_selection(all_birds.as_slice(), draw);
            new_birds.push(index);
            i = i + 1;
        }
        new_birds
    }
}

impl<T: Scalar, F: Fn(T) -> T + Copy, D: Fn(T) -> T + Copy> Game<T, F, D> {
    /// Replaces the population by its next generation and starts a new
    /// episode.
    ///
    /// Normalizes the fitness, turns the roulette wheel once for each place
    /// in the population, and fills the place with a fresh individual whose
    /// network is an offspring of the chosen parent's. All parents are read
    /// before any is replaced. Every individual is alive afterwards.
    pub fn next_generation<G: Fn() -> T, C: Fn() -> T, N: Fn() -> T>(
        &mut self,
        draw: &G,
        chance: &C,
        noise: &N,
    )
        requires
            old(self)@.wf(),
            call_requires(*draw, ()),
            call_requires(*chance, ()),
            call_requires(*noise, ()),
        ensures
            final(self)@.wf(),
            final(self)@.all_active(),
            final(self)@.all_birds.len() == old(self)@.all_birds.len(),
            final(self)@.counter == 0,
            final(self)@.best_bird == old(self)@.best_bird,
            final(self)@.high_score == old(self)@.high_score,
            final(self)@.run_best == old(self)@.run_best,
            forall|k: int|
                0 <= k < final(self)@.all_birds.len() ==> (#[trigger] final(self)@.all_birds[k]).fresh(),
            exists|parents: Seq<Bird<T, F, D>>|
                #[trigger] is_normalized(old(self)@.all_birds, parents) && forall|k: int|
                    0 <= k < final(self)@.all_birds.len() ==> is_bred(
                        parents,
                        *draw,
                        *chance,
                        *noise,
                        #[trigger] final(self)@.all_birds[k],
                    ),
    {
        self.normalize_fitness();
        let ghost parents = self@.all_birds;
        let new_birds_index: Vec<usize> = Self::generate(&self.all_birds, draw);
        self.reset_game();
        let n: usize = self.all_birds.len();
        let mut new_birds: Vec<Bird<T, F, D>> = Vec::new();
        let mut i: usize = 0;
        while i < n
            invariant
                i <= n,
                n == self.all_birds@.len(),
                n == parents.len(),
                n == new_birds_index@.len(),
                call_requires(*chance, ()),
                call_requires(*noise, ()),
                new_birds@.len() == i,
                forall|k: int| 0 <= k < n ==> (#[trigger] self.all_birds@[k]).brain == parents[k].brain,
                forall|k: int|
                    0 <= k < n ==> (#[trigger] new_birds_index@[k]) < n && is_chosen(
                        parents,
                        *draw,
                        new_birds_index@[k] as int,
                    ),
                forall|k: int|
                    0 <= k < i ==> is_bred(parents, *draw, *chance, *noise, #[trigger] new_birds@[k]),
            decreases n - i,
        {
            let index: usize = new_birds_index[i];
            let child = self.all_birds[index].copy(chance, noise);
            proof {
                assert(is_chosen(parents, *draw, index as int));
                assert(is_bred(parents, *draw, *chance, *noise, child));
            }
            new_birds.push(child);
            i = i + 1;
        }
        self.all_birds = new_birds;
        self.active_birds = full_range(n);
        proof {
            assert(is_normalized(old(self)@.all_birds, parents));
        }
    }

    /// Whether no individual is alive.
    pub fn is_exhausted(&self) -> (done: bool)
        ensures
            done == (self@.active_birds.len() == 0),
    {
        self.active_birds.len() == 0
    }

    /// Takes the population through one tick: every alive individual has
    /// lived through one tick more, and those whose flag in `survived` is not
    /// set are alive no longer. The flags stand in the order of the alive
    /// indices.
    pub fn step(&mut self, survived: &[bool])
        requires
            old(self)@.wf(),
            survived@.len() == old(self)@.active_birds.len(),
            forall|k: int|
                0 <= k < old(self)@.active_birds.len() ==> old(self)@.all_birds[(
                #[trigger] old(self)@.active_birds[k]) as int].score < u64::MAX,
        ensures
            final(self)@.wf(),
            final(self)@ == (Population {
                active_birds: final(self)@.active_birds,
                all_birds: final(self)@.all_birds,
                ..old(self)@
            }),
            final(self)@.active_birds == kept(old(self)@.active_birds, survived@),
            final(self)@.all_birds.len() == old(self)@.all_birds.len(),
            forall|i: int|
                0 <= i < final(self)@.all_birds.len() ==> #[trigger] final(self)@.all_birds[i] == (
                if old(self)@.active_birds.contains(i as usize) {
                    Bird {
                        score: (old(self)@.all_birds[i].score + 1) as u64,
                        ..old(self)@.all_birds[i]
                    }
                } else {
                    old(self)@.all_birds[i]
                }),
    {
        let n: usize = self.active_birds.len();
        let total: usize = self.all_birds.len();
        let ghost active = self.active_birds@;
        let ghost before = self.all_birds@;
        let mut acc_birds: Vec<usize> = Vec::new();
        let mut k: usize = 0;
        while k < n
            invariant
                k <= n,
                n == active.len(),
                n == survived@.len(),
                active == old(self)@.active_birds,
                before == old(self)@.all_birds,
                old(self)@.wf(),
                self@ == (Population { all_birds: self@.all_birds, ..old(self)@ }),
                self.all_birds@.len() == before.len(),
                before.len() == total,
                acc_birds@ == kept(active.take(k as int), survived@.take(k as int)),
                forall|j: int| 0 <= j < acc_birds@.len() ==> (#[trigger] acc_birds@[j]) < before.len(),
                forall|j: int, l: int| 0 <= j < l < acc_birds@.len() ==> acc_birds@[j] < acc_birds@[l],
                forall|j: int, m: int|
                    0 <= j < acc_birds@.len() && k <= m < n ==> acc_birds@[j] < active[m],
                forall|m: int| 0 <= m < n ==> before[(#[trigger] active[m]) as int].score < u64::MAX,
                forall|i: int|
                    0 <= i < before.len() ==> #[trigger] self.all_birds@[i] == (if active.take(
                        k as int,
                    ).contains(i as usize) {
                        Bird { score: (before[i].score + 1) as u64, ..before[i] }
                    } else {
                        before[i]
                    }),
            decreases n - k,
        {
            let index: usize = self.active_birds[k];
            proof {
                assert(active[k as int] == index);
                assert(!active.take(k as int).contains(index)) by {
                    if active.take(k as int).contains(index) {
                        let m = choose|m: int| 0 <= m < k && active.take(k as int)[m] == index;
                        assert(active[m] < active[k as int]);
                    }
                }
                assert(self.all_birds@[index as int] == before[index as int]);
            }
            let ghost middle = self.all_birds@;
            self.all_birds[index].update();
            if survived[k] {
                acc_birds.push(index);
            }
            proof {
                let shorter = active.take(k as int);
                let longer = active.take(k + 1);
                assert(longer.drop_last() =~= shorter);
                assert(survived@.take(k + 1).drop_last() =~= survived@.take(k as int));
                assert(longer.last() == index);
                assert(survived@.take(k + 1).last() == survived@[k as int]);
                assert forall|i: int| 0 <= i < before.len() implies #[trigger] self.all_birds@[i] == (
                if longer.contains(i as usize) {
                    Bird { score: (before[i].score + 1) as u64, ..before[i] }
                } else {
                    before[i]
                }) by {
                    if i == index {
                        assert(longer[k as int] == index);
                        assert(longer.contains(i as usize));
                    } else {
                        assert(self.all_birds@[i] == middle[i]);
                        if shorter.contains(i as usize) {
                            let m = choose|m: int| 0 <= m < k && shorter[m] == i as usize;
                            assert(longer[m] == i as usize);
                        }
                        if longer.contains(i as usize) {
                            let m = choose|m: int| 0 <= m < k + 1 && longer[m] == i as usize;
                            assert(longer[k as int] == index);
                            assert(m < k);
                            assert(shorter[m] == i as usize);
                        }
                    }
                }
            }
            k = k + 1;
        }
        proof {
            assert(active.take(n as int) =~= active);
            assert(survived@.take(n as int) =~= survived@);
        }
        self.active_birds = acc_birds;
    }

    /// Takes the best individual through one tick of a replay: it has lived
    /// through one tick more, and where it did not survive, the episode
    /// starts over. Where there is no best individual, nothing changes.
    pub fn step_best(&mut self, survived: bool)
        requires
            old(self)@.wf(),
            match old(self)@.best_bird {
                Some(b) => old(self)@.all_birds[b as int].score < u64::MAX,
                None => true,
            },
        ensures
            final(self)@.wf(),
            final(self)@ == (match old(self)@.best_bird {
                Some(b) => Population {
                    counter: if survived {
                        old(self)@.counter
                    } else {
                        0
                    },
                    all_birds: old(self)@.all_birds.update(
                        b as int,
                        Bird {
                            score: if survived {
                                (old(self)@.all_birds[b as int].score + 1) as u64
                            } else {
                                0
                            },
                            ..old(self)@.all_birds[b as int]
                        },
                    ),
                    ..old(self)@
                },
                None => old(self)@,
            }),
    {
        match self.best_bird {
            Some(best_index) => {
                self.all_birds[best_index].update();
                proof {
                    assert(self.all_birds@ =~= old(self)@.all_birds.update(
                        best_index as int,
                        Bird {
                            score: (old(self)@.all_birds[best_index as int].score + 1) as u64,
                            ..old(self)@.all_birds[best_index as int]
                        },
                    ));
                }
                if !survived {
                    self.reset_game();
                    proof {
                        assert(self.all_birds@ =~= old(self)@.all_birds.update(
                            best_index as int,
                            Bird { score: 0, ..old(self)@.all_birds[best_index as int] },
                        ));
                    }
                }
            },
            None => {},
        }
    }

    /// Brings the highest score so far, and the individual that reached it,
    /// up to date, and returns the highest score of this tick.
    ///
    /// While the whole population runs, the highest score of this tick is
    /// that of the alive individual that leads, or zero where none does;
    /// where it is more than the highest so far, it takes its place, and the
    /// leading individual that of the best. While only the best individual
    /// runs, it is that individual's score, or zero where there is none; where
    /// it is more than the highest so far, it takes its place.
    pub fn track_best(&mut self) -> (current: u64)
        requires
            old(self)@.wf(),
        ensures
            final(self)@.wf(),
            final(self)@ == (Population {
                best_bird: final(self)@.best_bird,
                high_score: final(self)@.high_score,
                ..old(self)@
            }),
            final(self)@.high_score == if current > old(self)@.high_score {
                current
            } else {
                old(self)@.high_score
            },
            old(self)@.run_best ==> final(self)@.best_bird == old(self)@.best_bird && current
                == match old(self)@.best_bird {
                Some(b) => old(self)@.all_birds[b as int].score,
                None => 0,
            },
            !old(self)@.run_best && current == 0 ==> final(self)@.best_bird == old(self)@.best_bird
                && forall|k: int|
                0 <= k < old(self)@.active_birds.len() ==> old(self)@.all_birds[(
                #[trigger] old(self)@.active_birds[k]) as int].score == 0,
            !old(self)@.run_best && current > 0 ==> exists|k: int|
                {
                    &&& #[trigger] leads(old(self)@.all_birds, old(self)@.active_birds, k)
                    &&& current == old(self)@.all_birds[old(self)@.active_birds[k] as int].score
                    &&& final(self)@.best_bird == if current > old(self)@.high_score {
                        Some(old(self)@.active_birds[k])
                    } else {
                        old(self)@.best_bird
                    }
                },
    {
        let mut tmp_high_score: u64 = 0;
        if !self.run_best {
            let mut tmp_best_bird: Option<usize> = None;
            let ghost mut place: int = 0;
            let n: usize = self.active_birds.len();
            let mut i: usize = 0;
            while i < n
                invariant
                    i <= n,
                    n == self.active_birds@.len(),
                    self@ == old(self)@,
                    self@.wf(),
                    tmp_high_score == 0 ==> tmp_best_bird is None && forall|k: int|
                        0 <= k < i ==> self.all_birds@[(#[trigger] self.active_birds@[k]) as int].score
                            == 0,
                    tmp_high_score > 0 ==> {
                        &&& 0 <= place < i
                        &&& leads(self.all_birds@, self.active_birds@.take(i as int), place)
                        &&& tmp_high_score == self.all_birds@[self.active_birds@[place] as int].score
                        &&& tmp_best_bird == Some(self.active_birds@[place])
                    },
                decreases n - i,
            {
                let index: usize = self.active_birds[i];
                proof {
                    assert(self@.active_birds[i as int] < self@.all_birds.len());
                }
                let s: u64 = self.all_birds[index].score;
                proof {
                    let shorter = self.active_birds@.take(i as int);
                    let longer = self.active_birds@.take(i + 1);
                    assert forall|j: int| 0 <= j < i implies longer[j] == shorter[j] by {}
                    assert(longer[i as int] == index);
                    if s > tmp_high_score {
                        assert(leads(self.all_birds@, longer, i as int));
                    } else if tmp_high_score > 0 {
                        assert(leads(self.all_birds@, longer, place));
                    }
                }
                if s > tmp_high_score {
                    tmp_high_score = s;
                    tmp_best_bird = Some(index);
                    proof {
                        place = i as int;
                    }
                }
                i = i + 1;
            }
            proof {
                assert(self.active_birds@.take(n as int) =~= self.active_birds@);
            }
            if tmp_high_score > self.high_score {
                self.high_score = tmp_high_score;
                self.best_bird = tmp_best_bird;
            }
        } else {
            match self.best_bird {
                Some(best_index) => {
                    tmp_high_score = self.all_birds[best_index].score;
                    if tmp_high_score > self.high_score {
                        self.high_score = tmp_high_score;
                    }
                },
                None => {},
            }
        }
        tmp_high_score
    }
}

/// The indices `0, 1, ..` up to `n`, in order.
fn full_range(n: usize) -> (v: Vec<usize>)
    ensures
        v@.len() == n,
        forall|k: int| 0 <= k < n ==> v@[k] == k,
{
    let mut v: Vec<usize> = Vec::new();
    let mut i: usize = 0;
    while i < n
        invariant
            i <= n,
            v@.len() == i,
            forall|k: int| 0 <= k < i ==> v@[k] == k,
        decreases n - i,
    {
        v.push(i);
        i = i + 1;
    }
    v
}

} // verus!
