//! The stored form of a network, and the way to and from it.

use crate::nn::matrix::{copy_range, MatrixView};
use crate::nn::{Network, NetworkView};
use vstd::prelude::*;
use vstd::slice::slice_to_vec;

verus! {

/// What a stored network holds.
pub struct RecordView {
    pub layers: Seq<u8>,
    pub weights: Seq<(usize, usize, Seq<u32>)>,
    pub biases: Seq<Seq<u32>>,
}

/// Container for a network state on its way to or from storage.
#[derive(Debug)]
pub struct SerializableNet {
    /// The layer sizes.
    pub layers: Vec<u8>,
    /// For each step between layers the weights, as number of rows, number of
    /// columns and the coefficients column by column.
    pub weights: Vec<(usize, usize, Vec<u32>)>,
    /// For each step between layers the biases.
    pub biases: Vec<Vec<u32>>,
}

impl View for SerializableNet {
    type V = RecordView;

    open spec fn view(&self) -> RecordView {
        RecordView {
            layers: self.layers@,
            weights: Seq::new(
                self.weights@.len(),
                |i: int| (self.weights@[i].0, self.weights@[i].1, self.weights@[i].2@),
            ),
            biases: Seq::new(self.biases@.len(), |i: int| self.biases@[i]@),
        }
    }
}

/// What is wrong with a stored network.
#[derive(Clone, Copy, Debug, PartialEq, Eq)]
pub enum FormatError {
    /// Fewer than three layers.
    TooFewLayers { actual: usize },
    /// The number of weight entries is not one less than the number of layers.
    WeightCount { expected: usize, actual: usize },
    /// The number of bias entries is not one less than the number of layers.
    BiasCount { expected: usize, actual: usize },
    /// The weights of step `index` do not have the shape that the layers ask
    /// for; `rows` and `columns` are what the record says.
    WeightShape { index: usize, rows: usize, columns: usize },
    /// The weights of step `index` hold `actual` coefficients where rows times
    /// columns is `expected`.
    FlatLength { index: usize, expected: usize, actual: usize },
    /// The biases of step `index` hold `actual` entries where the next layer
    /// has `expected` neurons.
    BiasLength { index: usize, expected: usize, actual: usize },
}

/// The record that stores a network.
pub open spec fn record_of(m: NetworkView) -> RecordView {
    RecordView {
        layers: m.layers,
        weights: Seq::new(
            m.weights.len(),
            |i: int| (m.weights[i].rows as usize, m.weights[i].cols as usize, m.weights[i].entries),
        ),
        biases: m.biases,
    }
}

/// The network that a record stores.
pub open spec fn network_of(rec: RecordView) -> NetworkView {
    NetworkView {
        layers: rec.layers,
        weights: Seq::new(
            rec.weights.len(),
            |i: int|
                MatrixView {
                    rows: rec.weights[i].0 as nat,
                    cols: rec.weights[i].1 as nat,
                    entries: rec.weights[i].2,
                },
        ),
        biases: rec.biases,
    }
}

/// What is wrong with the number of layers or of entries, if anything.
pub open spec fn count_defect(rec: RecordView) -> Option<FormatError> {
    if rec.layers.len() < 3 {
        Some(FormatError::TooFewLayers { actual: rec.layers.len() as usize })
    } else if rec.weights.len() != rec.layers.len() - 1 {
        Some(
            FormatError::WeightCount {
                expected: (rec.layers.len() - 1) as usize,
                actual: rec.weights.len() as usize,
            },
        )
    } else if rec.biases.len() != rec.layers.len() - 1 {
        Some(
            FormatError::BiasCount {
                expected: (rec.layers.len() - 1) as usize,
                actual: rec.biases.len() as usize,
            },
        )
    } else {
        None
    }
}

/// What is wrong with step `i` of a record whose counts are right, if
/// anything.
pub open spec fn step_defect(rec: RecordView, i: int) -> Option<FormatError> {
    let (rows, columns, flat) = rec.weights[i];
    if rows != rec.layers[i + 1] || columns != rec.layers[i] {
        Some(FormatError::WeightShape { index: i as usize, rows, columns })
    } else if flat.len() != rows * columns {
        Some(
            FormatError::FlatLength {
                index: i as usize,
                expected: (rows * columns) as usize,
                actual: flat.len() as usize,
            },
        )
    } else if rec.biases[i].len() != rec.layers[i + 1] {
        Some(
            FormatError::BiasLength {
                index: i as usize,
                expected: rec.layers[i + 1] as usize,
                actual: rec.biases[i].len() as usize,
            },
        )
    } else {
        None
    }
}

/// The counts are right and the first `n` steps are sound.
pub open spec fn sound_up_to(rec: RecordView, n: int) -> bool {
    count_defect(rec).is_none() && forall|i: int| 0 <= i < n ==> (#[trigger] step_defect(rec, i)).is_none()
}

/// The record stores a well-formed network.
pub open spec fn sound(rec: RecordView) -> bool {
    sound_up_to(rec, rec.layers.len() - 1)
}

/// `e` is the first thing wrong with the record: a wrong count, or else what
/// is wrong with the earliest unsound step.
pub open spec fn first_defect(rec: RecordView, e: FormatError) -> bool {
    match count_defect(rec) {
        Some(c) => e == c,
        None => exists|i: int|
            0 <= i < rec.layers.len() - 1 && sound_up_to(rec, i) && #[trigger] step_defect(rec, i)
                == Some(e),
    }
}

/// A sound record stores a well-formed network, and only a sound one does.
pub proof fn lemma_sound_iff_well_formed(rec: RecordView)
    ensures
        sound(rec) <==> network_of(rec).wf(),
{
    let m = network_of(rec);
    if sound(rec) {
        assert forall|i: int| 0 <= i < m.weights.len() implies crate::nn::weight_fits(
            m.layers,
            i,
            #[trigger] m.weights[i],
        ) by {
            assert(step_defect(rec, i).is_none());
        }
        assert forall|i: int| 0 <= i < m.biases.len() implies crate::nn::bias_fits(
            m.layers,
            i,
            #[trigger] m.biases[i],
        ) by {
            assert(step_defect(rec, i).is_none());
        }
    }
    if m.wf() {
        assert forall|i: int| 0 <= i < rec.layers.len() - 1 implies (#[trigger] step_defect(
            rec,
            i,
        )).is_none() by {
            assert(crate::nn::weight_fits(m.layers, i, m.weights[i]));
            assert(crate::nn::bias_fits(m.layers, i, m.biases[i]));
        }
    }
}

/// Storing a well-formed network and reading the record back gives the same
/// network: the same layers, and every weight and bias bit for bit.
pub proof fn lemma_round_trip(m: NetworkView)
    requires
        m.wf(),
    ensures
        sound(record_of(m)),
        network_of(record_of(m)) == m,
{
    let rec = record_of(m);
    let back = network_of(rec);
    assert forall|i: int| 0 <= i < m.weights.len() implies #[trigger] back.weights[i]
        == m.weights[i] by {
        assert(crate::nn::weight_fits(m.layers, i, m.weights[i]));
    }
    assert(back.weights =~= m.weights);
    assert(back == m);
    lemma_sound_iff_well_formed(rec);
}

/// Reading a sound record and storing the network again gives the same
/// record.
pub proof fn lemma_record_round_trip(rec: RecordView)
    requires
        sound(rec),
    ensures
        record_of(network_of(rec)) == rec,
{
    let again = record_of(network_of(rec));
    assert forall|i: int| 0 <= i < rec.weights.len() implies #[trigger] again.weights[i]
        == rec.weights[i] by {}
    assert(again.weights =~= rec.weights);
}

impl SerializableNet {
    /// The stored form of a network.
    pub fn from(network: Network) -> (r: SerializableNet)
        ensures
            r@ == record_of(network@),
    {
        let mut weights: Vec<(usize, usize, Vec<u32>)> = Vec::new();
        let matrices = network.get_weights();
        let mut i: usize = 0;
        while i < matrices.len()
            invariant
                i <= matrices@.len(),
                matrices@.len() == network@.weights.len(),
                forall|j: int| 0 <= j < matrices@.len() ==> (#[trigger] matrices@[j])@ == network@.weights[j],
                weights@.len() == i,
                forall|j: int|
                    0 <= j < i ==> (#[trigger] weights@[j]).0 == network@.weights[j].rows
                        && weights@[j].1 == network@.weights[j].cols && weights@[j].2@
                        == network@.weights[j].entries,
            decreases matrices@.len() - i,
        {
            let matrix = &matrices[i];
            weights.push((matrix.nrows(), matrix.ncols(), slice_to_vec(matrix.as_slice())));
            i += 1;
        }
        let mut biases: Vec<Vec<u32>> = Vec::new();
        let vectors = network.get_biases();
        let mut k: usize = 0;
        while k < vectors.len()
            invariant
                k <= vectors@.len(),
                vectors@.len() == network@.biases.len(),
                forall|j: int| 0 <= j < vectors@.len() ==> (#[trigger] vectors@[j])@ == network@.biases[j],
                biases@.len() == k,
                forall|j: int| 0 <= j < k ==> (#[trigger] biases@[j])@ == network@.biases[j],
            decreases vectors@.len() - k,
        {
            let vector = &vectors[k];
            biases.push(copy_range(vector, 0, vector.len()));
            assert(vector@.subrange(0, vector@.len() as int) =~= vector@);
            k += 1;
        }
        let layers = slice_to_vec(network.get_layers());
        let r = SerializableNet { layers, weights, biases };
        proof {
            assert(r@.weights =~= record_of(network@).weights);
            assert(r@.biases =~= record_of(network@).biases);
        }
        r
    }
}

} // verus!
