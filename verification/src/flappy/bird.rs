//! One individual of the population: a network, its score and its fitness.

use vstd::prelude::*;
use crate::error::EngineError;
use crate::matrix::Grid;
use crate::nn::NeuralNetwork;
use crate::scalar::{is_less, is_product, is_ratio, is_sum, is_zero, Scalar};

verus! {

/// `hit` is an answer to whether a mutation strikes on the draw `chance`:
/// whether `chance` is less than 1/10.
pub open spec fn is_strike<T: Scalar>(chance: T, hit: bool) -> bool {
    exists|tenth: T| #[trigger] is_ratio(1, 10, tenth) && is_less(chance, tenth, hit)
}

/// `y` is `x` displaced by half of `noise`.
pub open spec fn is_displaced<T: Scalar>(x: T, noise: T, y: T) -> bool {
    exists|half: T, step: T|
        is_ratio(1, 2, half) && #[trigger] is_product(noise, half, step) && is_sum(x, step, y)
}

/// `y` is a mutation of `x`: for a draw from `chance` on which a mutation
/// strikes, `x` displaced by half of a draw from `noise`; for a draw on which
/// none strikes, `x` itself.
pub open spec fn is_mutation<T: Scalar, C: Fn() -> T, N: Fn() -> T>(
    x: T,
    chance: C,
    noise: N,
    y: T,
) -> bool {
    exists|c: T, hit: bool|
        call_ensures(chance, (), c) && #[trigger] is_strike(c, hit) && if hit {
            exists|g: T| call_ensures(noise, (), g) && #[trigger] is_displaced(x, g, y)
        } else {
            y == x
        }
}

/// `m` has the shape of `a`, and each of its cells is a mutation of the cell
/// of `a` in the same place.
pub open spec fn is_mutated<T: Scalar, C: Fn() -> T, N: Fn() -> T>(
    a: Grid<T>,
    chance: C,
    noise: N,
    m: Grid<T>,
) -> bool {
    &&& m.same_shape(a)
    &&& m.wf()
    &&& forall|i: int, j: int|
        m.has(i, j) ==> is_mutation(a.at(i, j), chance, noise, #[trigger] m.at(i, j))
}

/// `child` is an offspring of `parent`: it has the parent's sizes and
/// nonlinearity, learning rate 1/10, and for weights and biases mutations of
/// the parent's.
pub open spec fn is_offspring<T: Scalar, F: Fn(T) -> T + Copy, D: Fn(T) -> T + Copy, C: Fn() -> T, N: Fn() -> T>(
    parent: NeuralNetwork<T, F, D>,
    chance: C,
    noise: N,
    child: NeuralNetwork<T, F, D>,
) -> bool {
    &&& child.input_nodes == parent.input_nodes
    &&& child.hidden_nodes == parent.hidden_nodes
    &&& child.output_nodes == parent.output_nodes
    &&& child.activation_function == parent.activation_function
    &&& is_ratio(1, 10, child.learning_rate)
    &&& is_mutated(parent.weights_ih@, chance, noise, child.weights_ih@)
    &&& is_mutated(parent.weights_ho@, chance, noise, child.weights_ho@)
    &&& is_mutated(parent.bias_h@, chance, noise, child.bias_h@)
    &&& is_mutated(parent.bias_o@, chance, noise, child.bias_o@)
}

/// Whether a mutation strikes on the draw `chance`: whether `chance` is less
/// than 1/10.
pub fn mutation_strikes<T: Scalar>(chance: T) -> (hit: bool)
    ensures
        is_strike(chance, hit),
{
    let tenth: T = T::ratio(1, 10);
    let hit: bool = chance.less_than(tenth);
    proof {
        assert(is_ratio(1, 10, tenth));
    }
    hit
}

/// `x` displaced by half of `noise`.
pub fn displace<T: Scalar>(x: T, noise: T) -> (y: T)
    ensures
        is_displaced(x, noise, y),
{
    let half: T = T::ratio(1, 2);
    let step: T = noise.times(half);
    let y: T = x.plus(step);
    proof {
        assert(is_product(noise, half, step));
    }
    y
}

/// Mutates one weight: draws from `chance`, and where a mutation strikes on
/// that draw, displaces `x` by half of a draw from `noise`; else leaves `x`
/// as it is.
pub fn mutate<T: Scalar, C: Fn() -> T, N: Fn() -> T>(x: T, chance: &C, noise: &N) -> (y: T)
    requires
        call_requires(*chance, ()),
        call_requires(*noise, ()),
    ensures
        is_mutation(x, *chance, *noise, y),
{
    let c: T = chance();
    let hit: bool = mutation_strikes(c);
    if hit {
        let g: T = noise();
        let y: T = displace(x, g);
        proof {
            assert(is_displaced(x, g, y));
            assert(is_strike(c, hit));
        }
        y
    } else {
        proof {
            assert(is_strike(c, hit));
        }
        x
    }
}

/// An individual: its network, the ticks it has lived through, and its share
/// of the population's score.
#[derive(Debug)]
pub struct Bird<T, F, D> {
    pub brain: NeuralNetwork<T, F, D>,
    pub score: u64,
    pub fitness: T,
}

impl<T: Copy, F: Copy, D: Copy> Clone for Bird<T, F, D> {
    /// An individual with a clone of the network, the same score and the same
    /// fitness.
    fn clone(&self) -> (b: Bird<T, F, D>)
        ensures
            b.brain.input_nodes == self.brain.input_nodes,
            b.brain.hidden_nodes == self.brain.hidden_nodes,
            b.brain.output_nodes == self.brain.output_nodes,
            b.brain.weights_ih@ == self.brain.weights_ih@,
            b.brain.weights_ho@ == self.brain.weights_ho@,
            b.brain.bias_h@ == self.brain.bias_h@,
            b.brain.bias_o@ == self.brain.bias_o@,
            b.brain.learning_rate == self.brain.learning_rate,
            b.brain.activation_function == self.brain.activation_function,
            b.score == self.score,
            b.fitness == self.fitness,
    {
        Bird { brain: self.brain.clone(), score: self.score, fitness: self.fitness }
    }
}

impl<T: Scalar, F: Fn(T) -> T + Copy, D: Fn(T) -> T + Copy> Bird<T, F, D> {
    /// `self` is fresh: it has lived through no tick and has a zero for its
    /// fitness.
    pub open spec fn fresh(&self) -> bool {
        self.score == 0 && is_zero(self.fitness)
    }

    /// The brain has an answer to `inputs` of which `jump` says whether its
    /// first item is less than its second.
    pub open spec fn decides(&self, inputs: Seq<T>, jump: bool) -> bool {
        exists|action: Seq<T>|
            action.len() >= 2 && #[trigger] self.brain.infers(inputs, action) && is_less(
                action[0],
                action[1],
                jump,
            )
    }

    /// A fresh individual with the given network.
    pub fn new(brain: NeuralNetwork<T, F, D>) -> (b: Bird<T, F, D>)
        ensures
            b.brain == brain,
            b.fresh(),
    {
        Bird { brain, score: 0, fitness: T::zero() }
    }

    /// A fresh individual whose network is an offspring of this one's.
    pub fn copy<C: Fn() -> T, N: Fn() -> T>(&self, chance: &C, noise: &N) -> (b: Bird<T, F, D>)
        requires
            call_requires(*chance, ()),
            call_requires(*noise, ()),
        ensures
            b.fresh(),
            is_offspring(self.brain, *chance, *noise, b.brain),
    {
        let mut new_nn = self.brain.copy();
        let policy = |x: T| -> (y: T)
            ensures
                is_mutation(x, *chance, *noise, y),
            { mutate(x, chance, noise) };
        new_nn.mutate(policy);
        Bird::new(new_nn)
    }

    /// Counts one more tick lived through.
    pub fn update(&mut self)
        requires
            old(self).score < u64::MAX,
        ensures
            final(self).score == old(self).score + 1,
            final(self).brain == old(self).brain,
            final(self).fitness == old(self).fitness,
    {
        self.score = self.score + 1;
    }

    /// Asks the brain what to do on `inputs`: whether to jump, which is
    /// whether the first item of its answer is less than the second.
    ///
    /// Fails with [`EngineError::ShapeMismatch`] exactly when the brain's
    /// `predict` fails on `inputs` or the brain has fewer than two outputs.
    pub fn think(&self, inputs: &[T]) -> (r: Result<bool, EngineError>)
        requires
            forall|x: T| call_requires(self.brain.activation_function.func, (x,)),
        ensures
            match r {
                Ok(jump) => {
                    &&& self.brain.shaped()
                    &&& inputs@.len() == self.brain.input_nodes
                    &&& self.brain.output_nodes >= 2
                    &&& self.decides(inputs@, jump)
                },
                Err(e) => e == EngineError::ShapeMismatch && !(self.brain.shaped() && inputs@.len()
                    == self.brain.input_nodes && self.brain.output_nodes >= 2),
            },
    {
        if self.brain.output_nodes < 2 {
            return Err(EngineError::ShapeMismatch);
        }
        let action: Vec<T> = self.brain.predict(inputs)?;
        let jump: bool = action[0].less_than(action[1]);
        proof {
            assert(self.brain.infers(inputs@, action@));
        }
        Ok(jump)
    }
}

} // verus!
