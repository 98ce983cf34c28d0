//! The network model: topology, weights and biases.

pub mod learning;
pub mod matrix;

use crate::nn::matrix::{copy_range, Matrix, MatrixView};
use crate::structs::{Data, DataView};
use crate::structs::serialnet::{
    first_defect, lemma_sound_iff_well_formed, network_of, sound, sound_up_to, step_defect,
    FormatError, SerializableNet,
};
use vstd::prelude::*;
use vstd::slice::slice_to_vec;

verus! {

/// What a network is: its layer sizes, one weight matrix and one bias vector
/// for each step from a layer to the next.
pub struct NetworkView {
    pub layers: Seq<u8>,
    pub weights: Seq<MatrixView>,
    pub biases: Seq<Seq<u32>>,
}

/// The matrix `w` leads from layer `i` to layer `i + 1`.
pub open spec fn weight_fits(layers: Seq<u8>, i: int, w: MatrixView) -> bool {
    w.rows == layers[i + 1] && w.cols == layers[i] && w.wf()
}

/// The vector `b` has one entry for each neuron of layer `i + 1`.
pub open spec fn bias_fits(layers: Seq<u8>, i: int, b: Seq<u32>) -> bool {
    b.len() == layers[i + 1]
}

impl NetworkView {
    /// The sample has one input for each neuron of the first layer and one
    /// entry of its class vector for each neuron of the last.
    pub open spec fn fits(self, sample: DataView) -> bool {
        self.layers.len() > 0 && sample.input.len() == self.layers.first()
            && sample.class_vector.len() == self.layers.last()
    }

    /// At least an input, a hidden and an output layer, and parameters whose
    /// shapes agree with the layers they join.
    pub open spec fn wf(self) -> bool {
        &&& self.layers.len() >= 3
        &&& self.weights.len() == self.layers.len() - 1
        &&& self.biases.len() == self.layers.len() - 1
        &&& forall|i: int|
            0 <= i < self.weights.len() ==> weight_fits(self.layers, i, #[trigger] self.weights[i])
        &&& forall|i: int|
            0 <= i < self.biases.len() ==> bias_fits(self.layers, i, #[trigger] self.biases[i])
    }
}

/// Number of parameters of the first `i` steps of a topology.
pub open spec fn offset(layers: Seq<u8>, i: int) -> int
    decreases i,
{
    if i <= 0 {
        0
    } else {
        offset(layers, i - 1) + layers[i] * layers[i - 1] + layers[i]
    }
}

/// Number of parameters of a topology.
pub open spec fn parameter_count(layers: Seq<u8>) -> int {
    offset(layers, layers.len() - 1)
}

/// Where the biases of step `i` begin.
pub open spec fn bias_offset(layers: Seq<u8>, i: int) -> int {
    offset(layers, i) + layers[i + 1] * layers[i]
}

/// The network of the given topology whose parameters, step by step, first
/// the weights column by column and then the biases, are `values`.
pub open spec fn model_of(layers: Seq<u8>, values: Seq<u32>) -> NetworkView {
    NetworkView {
        layers,
        weights: Seq::new(
            (layers.len() - 1) as nat,
            |i: int|
                MatrixView {
                    rows: layers[i + 1] as nat,
                    cols: layers[i] as nat,
                    entries: values.subrange(offset(layers, i), bias_offset(layers, i)),
                },
        ),
        biases: Seq::new(
            (layers.len() - 1) as nat,
            |i: int| values.subrange(bias_offset(layers, i), offset(layers, i + 1)),
        ),
    }
}

/// The parameter count grows with the number of steps.
pub proof fn lemma_offset_monotone(layers: Seq<u8>, i: int, j: int)
    requires
        0 <= i <= j,
    ensures
        0 <= offset(layers, i) <= offset(layers, j),
    decreases j,
{
    if j > 0 {
        assert(0 <= layers[j] * layers[j - 1]) by (nonlinear_arith);
        if i < j {
            lemma_offset_monotone(layers, i, j - 1);
        } else {
            lemma_offset_monotone(layers, j - 1, j - 1);
        }
    }
}

/// In a well-formed network the steps fit one behind the other: the first
/// weight matrix takes a vector as long as the first layer, each matrix gives
/// a vector as long as its biases and as the next matrix takes, and the last
/// gives one as long as the last layer.
pub proof fn lemma_steps_fit(m: NetworkView)
    requires
        m.wf(),
    ensures
        m.weights.first().cols == m.layers.first(),
        m.weights.last().rows == m.layers.last(),
        forall|i: int|
            0 <= i < m.weights.len() ==> (#[trigger] m.weights[i]).rows == m.biases[i].len(),
        forall|i: int|
            0 <= i < m.weights.len() - 1 ==> (#[trigger] m.weights[i]).rows == m.weights[i + 1].cols,
{
    assert(weight_fits(m.layers, 0, m.weights[0]));
    assert(weight_fits(m.layers, m.weights.len() - 1, m.weights[m.weights.len() - 1]));
    assert forall|i: int| 0 <= i < m.weights.len() implies (#[trigger] m.weights[i]).rows
        == m.biases[i].len() by {
        assert(weight_fits(m.layers, i, m.weights[i]));
        assert(bias_fits(m.layers, i, m.biases[i]));
    }
    assert forall|i: int| 0 <= i < m.weights.len() - 1 implies (#[trigger] m.weights[i]).rows
        == m.weights[i + 1].cols by {
        assert(weight_fits(m.layers, i, m.weights[i]));
        assert(weight_fits(m.layers, i + 1, m.weights[i + 1]));
    }
}

/// Why a network could not be built.
#[derive(Clone, Copy, Debug, PartialEq, Eq)]
pub enum ConfigError {
    /// The topology names fewer than three layers.
    TooFewLayers { actual: usize },
    /// The number of initial values, `actual`, is not the topology's
    /// parameter count, `expected`; that is `None` where the count is above
    /// every length.
    ParameterCount { expected: Option<usize>, actual: usize },
}

/// Artificial neural network: layer sizes, and for each step from one layer
/// to the next a weight matrix and a bias vector.
#[derive(Debug)]
pub struct Network {
    layers: Vec<u8>,
    weights: Vec<Matrix>,
    biases: Vec<Vec<u32>>,
}

impl View for Network {
    type V = NetworkView;

    closed spec fn view(&self) -> NetworkView {
        NetworkView {
            layers: self.layers@,
            weights: Seq::new(self.weights@.len(), |i: int| self.weights@[i]@),
            biases: Seq::new(self.biases@.len(), |i: int| self.biases@[i]@),
        }
    }
}

/// Number of parameters of a topology; `None` where it is no length.
pub fn count_parameters(sizes: &[u8]) -> (r: Option<usize>)
    ensures
        match r {
            Some(n) => n == parameter_count(sizes@),
            None => parameter_count(sizes@) > usize::MAX,
        },
{
    let count: usize = sizes.len();
    if count == 0 {
        return Some(0);
    }
    let mut total: usize = 0;
    let mut i: usize = 1;
    while i < count
        invariant
            count == sizes@.len(),
            1 <= i <= count,
            total == offset(sizes@, i - 1),
        decreases count - i,
    {
        let rows: usize = sizes[i] as usize;
        let columns: usize = sizes[i - 1] as usize;
        assert(rows * columns <= 255 * 255) by (nonlinear_arith)
            requires
                rows <= 255,
                columns <= 255,
        ;
        let need: usize = rows * columns + rows;
        if usize::MAX - total < need {
            proof {
                lemma_offset_monotone(sizes@, i as int, count - 1);
            }
            return None;
        }
        total = total + need;
        i += 1;
    }
    Some(total)
}

impl Network {
    /// Builds a network with the topology `sizes` from freshly drawn initial
    /// values, which are consumed step by step: the weights of a step column
    /// by column, then its biases.
    pub fn new(sizes: &[u8], values: &Vec<u32>) -> (r: Result<Network, ConfigError>)
        ensures
            sizes@.len() < 3 ==> r == Err::<Network, ConfigError>(
                ConfigError::TooFewLayers { actual: sizes@.len() as usize },
            ),
            sizes@.len() >= 3 && values@.len() != parameter_count(sizes@) ==> r == Err::<
                Network,
                ConfigError,
            >(
                ConfigError::ParameterCount {
                    expected: if parameter_count(sizes@) <= usize::MAX {
                        Some(parameter_count(sizes@) as usize)
                    } else {
                        None
                    },
                    actual: values@.len() as usize,
                },
            ),
            sizes@.len() >= 3 && values@.len() == parameter_count(sizes@) ==> r.is_ok()
                && r.unwrap()@ == model_of(sizes@, values@) && r.unwrap()@.wf(),
    {
        let count: usize = sizes.len();
        let given: usize = values.len();
        if count < 3 {
            return Err(ConfigError::TooFewLayers { actual: count });
        }
        let expected: Option<usize> = count_parameters(sizes);
        match expected {
            Some(n) => {
                if n != given {
                    return Err(ConfigError::ParameterCount { expected, actual: given });
                }
            },
            None => {
                return Err(ConfigError::ParameterCount { expected, actual: given });
            },
        }
        let ghost target = model_of(sizes@, values@);
        let mut weights: Vec<Matrix> = Vec::new();
        let mut biases: Vec<Vec<u32>> = Vec::new();
        let mut pos: usize = 0;
        let mut i: usize = 0;
        while i < count - 1
            invariant
                count == sizes@.len(),
                given == values@.len(),
                count >= 3,
                i <= count - 1,
                pos == offset(sizes@, i as int),
                pos <= given,
                given == parameter_count(sizes@),
                target == model_of(sizes@, values@),
                weights@.len() == i,
                biases@.len() == i,
                forall|j: int| 0 <= j < i ==> (#[trigger] weights@[j])@ == target.weights[j],
                forall|j: int| 0 <= j < i ==> (#[trigger] biases@[j])@ == target.biases[j],
            decreases count - 1 - i,
        {
            let rows: usize = sizes[i + 1] as usize;
            let columns: usize = sizes[i] as usize;
            assert(rows * columns <= 255 * 255) by (nonlinear_arith)
                requires
                    rows <= 255,
                    columns <= 255,
            ;
            let need: usize = rows * columns + rows;
            proof {
                lemma_offset_monotone(sizes@, i + 1, count - 1);
                assert(offset(sizes@, i + 1) == pos + need);
            }
            let entries = copy_range(values, pos, pos + rows * columns);
            let bias = copy_range(values, pos + rows * columns, pos + need);
            let weight = Matrix::from_column_vector(rows, columns, entries);
            weights.push(weight.unwrap());
            biases.push(bias);
            pos = pos + need;
            i += 1;
        }
        let layers = slice_to_vec(sizes);
        let net = Network { layers, weights, biases };
        proof {
            assert(net@.weights =~= target.weights);
            assert(net@.biases =~= target.biases);
            assert forall|k: int| 0 <= k < target.weights.len() implies weight_fits(
                sizes@,
                k,
                #[trigger] target.weights[k],
            ) by {
                lemma_offset_monotone(sizes@, k, k + 1);
                lemma_offset_monotone(sizes@, k + 1, count - 1);
                assert(0 <= sizes@[k + 1] * sizes@[k]) by (nonlinear_arith);
                assert(target.weights[k].entries.len() == sizes@[k + 1] * sizes@[k]);
            }
            assert forall|k: int| 0 <= k < target.biases.len() implies bias_fits(
                sizes@,
                k,
                #[trigger] target.biases[k],
            ) by {
                lemma_offset_monotone(sizes@, k + 1, count - 1);
                lemma_offset_monotone(sizes@, k, k + 1);
                assert(0 <= sizes@[k + 1] * sizes@[k]) by (nonlinear_arith);
            }
        }
        Ok(net)
    }

    /// The network that a stored record describes, or the first thing that is
    /// wrong with the record.
    pub fn from(ser_net: SerializableNet) -> (r: Result<Network, FormatError>)
        ensures
            match r {
                Ok(net) => sound(ser_net@) && net@ == network_of(ser_net@) && net@.wf(),
                Err(e) => !sound(ser_net@) && first_defect(ser_net@, e),
            },
    {
        let ghost rec = ser_net@;
        let count: usize = ser_net.layers.len();
        let weight_count: usize = ser_net.weights.len();
        let bias_count: usize = ser_net.biases.len();
        if count < 3 {
            return Err(FormatError::TooFewLayers { actual: count });
        }
        if weight_count != count - 1 {
            return Err(FormatError::WeightCount { expected: count - 1, actual: weight_count });
        }
        if bias_count != count - 1 {
            return Err(FormatError::BiasCount { expected: count - 1, actual: bias_count });
        }
        let mut weights: Vec<Matrix> = Vec::new();
        let mut biases: Vec<Vec<u32>> = Vec::new();
        let mut i: usize = 0;
        while i < count - 1
            invariant
                rec == ser_net@,
                count == rec.layers.len(),
                count >= 3,
                i <= count - 1,
                sound_up_to(rec, i as int),
                weights@.len() == i,
                biases@.len() == i,
                forall|j: int| 0 <= j < i ==> (#[trigger] weights@[j])@ == network_of(rec).weights[j],
                forall|j: int| 0 <= j < i ==> (#[trigger] biases@[j])@ == rec.biases[j],
            decreases count - 1 - i,
        {
            let entry = &ser_net.weights[i];
            let rows: usize = entry.0;
            let columns: usize = entry.1;
            let flat_len: usize = entry.2.len();
            let bias = &ser_net.biases[i];
            let bias_len: usize = bias.len();
            assert(rec.weights[i as int] == (rows, columns, entry.2@));
            assert(rec.biases[i as int] == bias@);
            if rows != ser_net.layers[i + 1] as usize || columns != ser_net.layers[i] as usize {
                let e = FormatError::WeightShape { index: i, rows, columns };
                assert(step_defect(rec, i as int) == Some(e));
                return Err(e);
            }
            assert(rows * columns <= 255 * 255) by (nonlinear_arith)
                requires
                    rows <= 255,
                    columns <= 255,
            ;
            if flat_len != rows * columns {
                let e = FormatError::FlatLength {
                    index: i,
                    expected: rows * columns,
                    actual: flat_len,
                };
                assert(step_defect(rec, i as int) == Some(e));
                return Err(e);
            }
            if bias_len != rows {
                let e = FormatError::BiasLength { index: i, expected: rows, actual: bias_len };
                assert(step_defect(rec, i as int) == Some(e));
                return Err(e);
            }
            assert(step_defect(rec, i as int).is_none());
            let flat = copy_range(&entry.2, 0, flat_len);
            assert(flat@ =~= entry.2@);
            let weight = Matrix::from_column_vector(rows, columns, flat);
            weights.push(weight.unwrap());
            let copy = copy_range(bias, 0, bias_len);
            assert(copy@ =~= bias@);
            biases.push(copy);
            i += 1;
        }
        let net = Network { layers: ser_net.layers, weights, biases };
        proof {
            assert(net@.weights =~= network_of(rec).weights);
            assert(net@.biases =~= network_of(rec).biases);
            lemma_sound_iff_well_formed(rec);
        }
        Ok(net)
    }

    /// Whether the sample has the lengths that the first and the last layer
    /// ask for.
    pub fn fits(&self, sample: &Data) -> (r: bool)
        ensures
            r == self@.fits(sample@),
    {
        let count: usize = self.layers.len();
        count > 0 && sample.get_input().len() == self.layers[0] as usize
            && sample.get_class_vector().len() == self.layers[count - 1] as usize
    }

    /// Whether every sample has the lengths that the first and the last layer
    /// ask for.
    pub fn fits_all(&self, samples: &Vec<Data>) -> (r: bool)
        ensures
            r == forall|i: int| 0 <= i < samples@.len() ==> self@.fits((#[trigger] samples@[i])@),
    {
        let mut i: usize = 0;
        while i < samples.len()
            invariant
                i <= samples@.len(),
                forall|k: int| 0 <= k < i ==> self@.fits((#[trigger] samples@[k])@),
            decreases samples@.len() - i,
        {
            if !self.fits(&samples[i]) {
                return false;
            }
            i += 1;
        }
        true
    }

    /// The layer sizes the network was built with.
    pub fn get_layers(&self) -> (r: &[u8])
        ensures
            r@ == self@.layers,
    {
        self.layers.as_slice()
    }

    /// The weight matrices, one for each step between layers.
    pub fn get_weights(&self) -> (r: &[Matrix])
        ensures
            r@.len() == self@.weights.len(),
            forall|i: int| 0 <= i < r@.len() ==> (#[trigger] r@[i])@ == self@.weights[i],
    {
        self.weights.as_slice()
    }

    /// The bias vectors, one for each step between layers.
    pub fn get_biases(&self) -> (r: &[Vec<u32>])
        ensures
            r@.len() == self@.biases.len(),
            forall|i: int| 0 <= i < r@.len() ==> (#[trigger] r@[i])@ == self@.biases[i],
    {
        self.biases.as_slice()
    }

    /// The weight matrices, to be changed in place. Nothing holds the new
    /// matrices to the topology: see `is_well_formed`.
    pub fn get_weights_mut(&mut self) -> (r: &mut Vec<Matrix>)
        ensures
            r@.len() == old(self)@.weights.len(),
            forall|i: int| 0 <= i < r@.len() ==> (#[trigger] r@[i])@ == old(self)@.weights[i],
            final(self)@.layers == old(self)@.layers,
            final(self)@.biases == old(self)@.biases,
            final(self)@.weights == Seq::new(final(r)@.len(), |i: int| final(r)@[i]@),
    {
        &mut self.weights
    }

    /// The bias vectors, to be changed in place. Nothing holds the new
    /// vectors to the topology: see `is_well_formed`.
    pub fn get_biases_mut(&mut self) -> (r: &mut Vec<Vec<u32>>)
        ensures
            r@.len() == old(self)@.biases.len(),
            forall|i: int| 0 <= i < r@.len() ==> (#[trigger] r@[i])@ == old(self)@.biases[i],
            final(self)@.layers == old(self)@.layers,
            final(self)@.weights == old(self)@.weights,
            final(self)@.biases == Seq::new(final(r)@.len(), |i: int| final(r)@[i]@),
    {
        &mut self.biases
    }

    /// Whether every parameter has the shape that the topology asks for.
    pub fn is_well_formed(&self) -> (r: bool)
        ensures
            r == self@.wf(),
    {
        let count: usize = self.layers.len();
        if count < 3 || self.weights.len() != count - 1 || self.biases.len() != count - 1 {
            return false;
        }
        let mut i: usize = 0;
        while i < count - 1
            invariant
                count == self.layers@.len(),
                count >= 3,
                self.weights@.len() == count - 1,
                self.biases@.len() == count - 1,
                i <= count - 1,
                forall|j: int| 0 <= j < i ==> weight_fits(self@.layers, j, #[trigger] self@.weights[j]),
                forall|j: int| 0 <= j < i ==> bias_fits(self@.layers, j, #[trigger] self@.biases[j]),
            decreases count - 1 - i,
        {
            let rows: usize = self.layers[i + 1] as usize;
            let columns: usize = self.layers[i] as usize;
            let weight = &self.weights[i];
            if weight.nrows() != rows || weight.ncols() != columns || self.biases[i].len() != rows {
                assert(!weight_fits(self@.layers, i as int, self@.weights[i as int]) || !bias_fits(
                    self@.layers,
                    i as int,
                    self@.biases[i as int],
                ));
                return false;
            }
            i += 1;
        }
        true
    }
}

} // verus!
