//! Three-layer feedforward network: inputs, one hidden layer, outputs.

use vstd::prelude::*;
use crate::error::EngineError;
use crate::matrix::{
    column, is_applied, is_drawn, is_matrix_product, is_matrix_sum, lemma_applied_unique,
    lemma_matrix_product_unique, lemma_matrix_sum_unique, Grid, Matrix,
};
use crate::scalar::{is_exact, is_ratio, Scalar};

verus! {

/// A nonlinearity and its derivative, the derivative given in terms of the
/// nonlinearity's output.
#[derive(Debug)]
pub struct ActivationFunction<F, D> {
    pub func: F,
    pub dfunc: D,
}

impl<F: Copy, D: Copy> Clone for ActivationFunction<F, D> {
    fn clone(&self) -> (r: ActivationFunction<F, D>)
        ensures
            r == *self,
    {
        ActivationFunction { func: self.func, dfunc: self.dfunc }
    }
}

impl<F: Copy, D: Copy> Copy for ActivationFunction<F, D> {

}

/// A network of `input_nodes` inputs, `hidden_nodes` hidden units and
/// `output_nodes` outputs.
#[derive(Debug)]
pub struct NeuralNetwork<T, F, D> {
    pub input_nodes: i32,
    pub hidden_nodes: i32,
    pub output_nodes: i32,
    /// Weights from the inputs to the hidden layer, `hidden_nodes` by
    /// `input_nodes`.
    pub weights_ih: Matrix<T>,
    /// Weights from the hidden layer to the outputs, `output_nodes` by
    /// `hidden_nodes`.
    pub weights_ho: Matrix<T>,
    /// Bias of the hidden layer, `hidden_nodes` by 1.
    pub bias_h: Matrix<T>,
    /// Bias of the outputs, `output_nodes` by 1.
    pub bias_o: Matrix<T>,
    /// Step size kept for gradient training; inference and mutation do not
    /// read it.
    pub learning_rate: T,
    pub activation_function: ActivationFunction<F, D>,
}

impl<T: Copy, F: Copy, D: Copy> Clone for NeuralNetwork<T, F, D> {
    /// A network with the same sizes, weights, biases, learning rate and
    /// nonlinearity.
    fn clone(&self) -> (r: NeuralNetwork<T, F, D>)
        ensures
            r.input_nodes == self.input_nodes,
            r.hidden_nodes == self.hidden_nodes,
            r.output_nodes == self.output_nodes,
            r.weights_ih@ == self.weights_ih@,
            r.weights_ho@ == self.weights_ho@,
            r.bias_h@ == self.bias_h@,
            r.bias_o@ == self.bias_o@,
            r.learning_rate == self.learning_rate,
            r.activation_function == self.activation_function,
    {
        NeuralNetwork {
            input_nodes: self.input_nodes,
            hidden_nodes: self.hidden_nodes,
            output_nodes: self.output_nodes,
            weights_ih: self.weights_ih.clone(),
            weights_ho: self.weights_ho.clone(),
            bias_h: self.bias_h.clone(),
            bias_o: self.bias_o.clone(),
            learning_rate: self.learning_rate,
            activation_function: self.activation_function,
        }
    }
}

/// `y` is an output of the layer with weights `w`, bias `b` and nonlinearity
/// `f` on the input `x`: `f` applied, cell by cell, to `w * x + b`.
pub open spec fn is_layer<T: Scalar, F: Fn(T) -> T>(
    w: Grid<T>,
    b: Grid<T>,
    f: F,
    x: Grid<T>,
    y: Grid<T>,
) -> bool {
    exists|product: Grid<T>, shifted: Grid<T>|
        is_matrix_product(w, x, product) && #[trigger] is_matrix_sum(product, b, shifted)
            && is_applied(shifted, f, y)
}

impl<T: Scalar, F: Fn(T) -> T + Copy, D: Fn(T) -> T + Copy> NeuralNetwork<T, F, D> {
    /// The four matrices have the shapes that the three sizes ask for.
    pub open spec fn shaped(&self) -> bool {
        &&& self.weights_ih@.rows == self.hidden_nodes
        &&& self.weights_ih@.cols == self.input_nodes
        &&& self.weights_ho@.rows == self.output_nodes
        &&& self.weights_ho@.cols == self.hidden_nodes
        &&& self.bias_h@.rows == self.hidden_nodes
        &&& self.bias_h@.cols == 1
        &&& self.bias_o@.rows == self.output_nodes
        &&& self.bias_o@.cols == 1
    }

    /// `output` is an answer of the network to `input`: an output of the
    /// output layer on an output of the hidden layer on `input`.
    pub open spec fn infers(&self, input: Seq<T>, output: Seq<T>) -> bool {
        exists|hidden: Grid<T>|
            #[trigger] is_layer(
                self.weights_ih@,
                self.bias_h@,
                self.activation_function.func,
                column(input),
                hidden,
            ) && is_layer(
                self.weights_ho@,
                self.bias_o@,
                self.activation_function.func,
                hidden,
                column(output),
            )
    }

    /// `self` has the sizes, learning rate and nonlinearity of `other`.
    pub open spec fn same_setup(&self, other: &NeuralNetwork<T, F, D>) -> bool {
        &&& self.input_nodes == other.input_nodes
        &&& self.hidden_nodes == other.hidden_nodes
        &&& self.output_nodes == other.output_nodes
        &&& self.learning_rate == other.learning_rate
        &&& self.activation_function == other.activation_function
    }

    /// A network of the given sizes whose weights and biases are drawn from
    /// `draw`, with learning rate 1/10.
    ///
    /// Fails with [`EngineError::InvalidConfiguration`] exactly when one of
    /// the sizes is not positive.
    pub fn new<G: Fn() -> T>(
        in_nodes: i32,
        hid_nodes: i32,
        out_nodes: i32,
        draw: &G,
        activation: ActivationFunction<F, D>,
    ) -> (r: Result<NeuralNetwork<T, F, D>, EngineError>)
        requires
            call_requires(*draw, ()),
            0 < in_nodes && 0 < hid_nodes && 0 < out_nodes ==> hid_nodes * in_nodes <= usize::MAX
                && out_nodes * hid_nodes <= usize::MAX,
        ensures
            match r {
                Ok(nn) => {
                    &&& 0 < in_nodes && 0 < hid_nodes && 0 < out_nodes
                    &&& nn.input_nodes == in_nodes
                    &&& nn.hidden_nodes == hid_nodes
                    &&& nn.output_nodes == out_nodes
                    &&& nn.shaped()
                    &&& is_drawn(*draw, nn.weights_ih@)
                    &&& is_drawn(*draw, nn.weights_ho@)
                    &&& is_drawn(*draw, nn.bias_h@)
                    &&& is_drawn(*draw, nn.bias_o@)
                    &&& is_ratio(1, 10, nn.learning_rate)
                    &&& nn.activation_function == activation
                },
                Err(e) => e == EngineError::InvalidConfiguration && (in_nodes <= 0 || hid_nodes <= 0
                    || out_nodes <= 0),
            },
    {
        if in_nodes <= 0 || hid_nodes <= 0 || out_nodes <= 0 {
            return Err(EngineError::InvalidConfiguration);
        }
        let weights_ih = Matrix::<T>::new(hid_nodes, in_nodes).randomize(draw);
        let weights_ho = Matrix::<T>::new(out_nodes, hid_nodes).randomize(draw);
        let bias_h = Matrix::<T>::new(hid_nodes, 1).randomize(draw);
        let bias_o = Matrix::<T>::new(out_nodes, 1).randomize(draw);
        Ok(
            NeuralNetwork {
                input_nodes: in_nodes,
                hidden_nodes: hid_nodes,
                output_nodes: out_nodes,
                weights_ih,
                weights_ho,
                bias_h,
                bias_o,
                learning_rate: T::ratio(1, 10),
                activation_function: activation,
            },
        )
    }

    /// A network with the sizes, weights, biases and nonlinearity of `nn`,
    /// and learning rate 1/10.
    pub fn from_nn(nn: &NeuralNetwork<T, F, D>) -> (r: NeuralNetwork<T, F, D>)
        ensures
            r.input_nodes == nn.input_nodes,
            r.hidden_nodes == nn.hidden_nodes,
            r.output_nodes == nn.output_nodes,
            r.weights_ih@ == nn.weights_ih@,
            r.weights_ho@ == nn.weights_ho@,
            r.bias_h@ == nn.bias_h@,
            r.bias_o@ == nn.bias_o@,
            is_ratio(1, 10, r.learning_rate),
            r.activation_function == nn.activation_function,
    {
        NeuralNetwork {
            input_nodes: nn.input_nodes,
            hidden_nodes: nn.hidden_nodes,
            output_nodes: nn.output_nodes,
            weights_ih: nn.weights_ih.clone(),
            weights_ho: nn.weights_ho.clone(),
            bias_h: nn.bias_h.clone(),
            bias_o: nn.bias_o.clone(),
            learning_rate: T::ratio(1, 10),
            activation_function: nn.activation_function,
        }
    }

    /// A copy of `self` as [`NeuralNetwork::from_nn`] makes it.
    pub fn copy(&self) -> (r: NeuralNetwork<T, F, D>)
        ensures
            r.input_nodes == self.input_nodes,
            r.hidden_nodes == self.hidden_nodes,
            r.output_nodes == self.output_nodes,
            r.weights_ih@ == self.weights_ih@,
            r.weights_ho@ == self.weights_ho@,
            r.bias_h@ == self.bias_h@,
            r.bias_o@ == self.bias_o@,
            is_ratio(1, 10, r.learning_rate),
            r.activation_function == self.activation_function,
    {
        NeuralNetwork::from_nn(self)
    }

    /// Sets the learning rate and leaves the rest as it is.
    pub fn set_learning_rate(&mut self, learning_rate: T)
        ensures
            final(self).learning_rate == learning_rate,
            final(self).activation_function == old(self).activation_function,
            final(self).input_nodes == old(self).input_nodes,
            final(self).hidden_nodes == old(self).hidden_nodes,
            final(self).output_nodes == old(self).output_nodes,
            final(self).weights_ih == old(self).weights_ih,
            final(self).weights_ho == old(self).weights_ho,
            final(self).bias_h == old(self).bias_h,
            final(self).bias_o == old(self).bias_o,
    {
        self.learning_rate = learning_rate;
    }

    /// Sets the nonlinearity and its derivative and leaves the rest as it is.
    pub fn set_activation_function(&mut self, func: ActivationFunction<F, D>)
        ensures
            final(self).activation_function == func,
            final(self).learning_rate == old(self).learning_rate,
            final(self).input_nodes == old(self).input_nodes,
            final(self).hidden_nodes == old(self).hidden_nodes,
            final(self).output_nodes == old(self).output_nodes,
            final(self).weights_ih == old(self).weights_ih,
            final(self).weights_ho == old(self).weights_ho,
            final(self).bias_h == old(self).bias_h,
            final(self).bias_o == old(self).bias_o,
    {
        self.activation_function = func;
    }

    /// Whether the four matrices have the shapes that the three sizes ask
    /// for.
    pub fn is_shaped(&self) -> (ok: bool)
        ensures
            ok == self.shaped(),
    {
        self.weights_ih.rows() == self.hidden_nodes && self.weights_ih.cols() == self.input_nodes
            && self.weights_ho.rows() == self.output_nodes && self.weights_ho.cols()
            == self.hidden_nodes && self.bias_h.rows() == self.hidden_nodes && self.bias_h.cols()
            == 1 && self.bias_o.rows() == self.output_nodes && self.bias_o.cols() == 1
    }

    /// The network's answer to `input_array`.
    ///
    /// Fails with [`EngineError::ShapeMismatch`] exactly when `input_array`
    /// has not `input_nodes` items or the matrices have not the shapes that
    /// the sizes ask for.
    pub fn predict(&self, input_array: &[T]) -> (r: Result<Vec<T>, EngineError>)
        requires
            forall|x: T| call_requires(self.activation_function.func, (x,)),
        ensures
            match r {
                Ok(output) => {
                    &&& self.shaped()
                    &&& input_array@.len() == self.input_nodes
                    &&& output@.len() == self.output_nodes
                    &&& self.infers(input_array@, output@)
                },
                Err(e) => e == EngineError::ShapeMismatch && !(self.shaped() && input_array@.len()
                    == self.input_nodes),
            },
    {
        if !self.is_shaped() || self.input_nodes < 0 || input_array.len() != self.input_nodes as usize {
            return Err(EngineError::ShapeMismatch);
        }
        let f = &self.activation_function.func;
        let inputs = Matrix::from_array(input_array);
        let product_h = self.weights_ih.cross_product(&inputs)?;
        let shifted_h = product_h.add_m(&self.bias_h)?;
        let hidden = shifted_h.apply(f);
        let product_o = self.weights_ho.cross_product(&hidden)?;
        let shifted_o = product_o.add_m(&self.bias_o)?;
        let output = shifted_o.apply(f);
        proof {
            assert(is_matrix_sum(product_h@, self.bias_h@, shifted_h@));
            assert(is_layer(self.weights_ih@, self.bias_h@, *f, inputs@, hidden@));
            assert(is_matrix_sum(product_o@, self.bias_o@, shifted_o@));
            assert(is_layer(self.weights_ho@, self.bias_o@, *f, hidden@, output@));
            assert(output@ == column(output@.cells));
        }
        Ok(output.to_array())
    }

    /// Replaces every weight and bias `x` by `func(x)`.
    pub fn mutate<P: Fn(T) -> T>(&mut self, func: P)
        requires
            forall|x: T| call_requires(func, (x,)),
        ensures
            final(self).same_setup(old(self)),
            is_applied(old(self).weights_ih@, func, final(self).weights_ih@),
            is_applied(old(self).weights_ho@, func, final(self).weights_ho@),
            is_applied(old(self).bias_h@, func, final(self).bias_h@),
            is_applied(old(self).bias_o@, func, final(self).bias_o@),
    {
        let weights_ih = self.weights_ih.apply(&func);
        let weights_ho = self.weights_ho.apply(&func);
        let bias_h = self.bias_h.apply(&func);
        let bias_o = self.bias_o.apply(&func);
        self.weights_ih = weights_ih;
        self.weights_ho = weights_ho;
        self.bias_h = bias_h;
        self.bias_o = bias_o;
    }
}

/// With exact arithmetic and a nonlinearity that has one result for each
/// argument, a layer has one output for each input.
pub proof fn lemma_layer_unique<T: Scalar, F: Fn(T) -> T>(
    w: Grid<T>,
    b: Grid<T>,
    f: F,
    x: Grid<T>,
    y: Grid<T>,
    other: Grid<T>,
)
    requires
        is_exact::<T>(),
        forall|u: T, v: T, z: T| #[trigger] call_ensures(f, (u,), v) && #[trigger] call_ensures(f, (u,), z) ==> v == z,
        is_layer(w, b, f, x, y),
        is_layer(w, b, f, x, other),
    ensures
        y == other,
{
    let (p1, s1) = choose|product: Grid<T>, shifted: Grid<T>|
        is_matrix_product(w, x, product) && #[trigger] is_matrix_sum(product, b, shifted)
            && is_applied(shifted, f, y);
    let (p2, s2) = choose|product: Grid<T>, shifted: Grid<T>|
        is_matrix_product(w, x, product) && #[trigger] is_matrix_sum(product, b, shifted)
            && is_applied(shifted, f, other);
    lemma_matrix_product_unique(w, x, p1, p2);
    lemma_matrix_sum_unique(p1, b, s1, s2);
    lemma_applied_unique(s1, f, y, other);
}

/// With exact arithmetic and a nonlinearity that has one result for each
/// argument, a network has one answer to each input.
pub proof fn lemma_infers_unique<T: Scalar, F: Fn(T) -> T + Copy, D: Fn(T) -> T + Copy>(
    nn: NeuralNetwork<T, F, D>,
    input: Seq<T>,
    output: Seq<T>,
    other: Seq<T>,
)
    requires
        is_exact::<T>(),
        forall|u: T, v: T, z: T|
            #[trigger] call_ensures(nn.activation_function.func, (u,), v) && #[trigger] call_ensures(
                nn.activation_function.func,
                (u,),
                z,
            ) ==> v == z,
        nn.infers(input, output),
        nn.infers(input, other),
    ensures
        output == other,
{
    let f = nn.activation_function.func;
    let h1 = choose|hidden: Grid<T>|
        #[trigger] is_layer(nn.weights_ih@, nn.bias_h@, f, column(input), hidden) && is_layer(
            nn.weights_ho@,
            nn.bias_o@,
            f,
            hidden,
            column(output),
        );
    let h2 = choose|hidden: Grid<T>|
        #[trigger] is_layer(nn.weights_ih@, nn.bias_h@, f, column(input), hidden) && is_layer(
            nn.weights_ho@,
            nn.bias_o@,
            f,
            hidden,
            column(other),
        );
    lemma_layer_unique(nn.weights_ih@, nn.bias_h@, f, column(input), h1, h2);
    lemma_layer_unique(nn.weights_ho@, nn.bias_o@, f, h1, column(output), column(other));
}

} // verus!
