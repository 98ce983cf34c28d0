//! Training by stochastic gradient descent: the order of the work, and the
//! counting of correct answers. The arithmetic of a training step is the
//! caller's.

use crate::nn::matrix::Matrix;
use crate::nn::{bias_fits, weight_fits, Network};
use crate::scalar::{argmax, comparable, find_max, is_nan, rank, ONE, ZERO};
use crate::structs::{one_hot, Data, DataView};
use rand::Rng;
use vstd::prelude::*;

verus! {

/// What the samples of a list are.
pub open spec fn views(s: Seq<Data>) -> Seq<DataView> {
    s.map_values(|d: Data| d@)
}

/// Brings the samples into a random order with `rand::Rng::shuffle`, on the
/// generator of the running thread. The function only swaps entries, so the
/// samples afterwards are those from before, each as often as before.
#[verifier::external_body]
pub(crate) fn shuffle(values: &mut Vec<Data>)
    ensures
        final(values)@.len() == old(values)@.len(),
        views(final(values)@).to_multiset() == views(old(values)@).to_multiset(),
{
    rand::thread_rng().shuffle(values);
}

/// The batches cut a list of `samples` entries into consecutive pieces of
/// `batch_size` entries each, the last of which may be shorter: each is given
/// by its first index and the index behind its last.
pub open spec fn is_chunking(batches: Seq<(usize, usize)>, samples: int, batch_size: int) -> bool {
    &&& samples == 0 ==> batches.len() == 0
    &&& samples > 0 ==> batches.len() > 0 && batches[0].0 == 0 && batches.last().1 == samples
    &&& forall|k: int|
        0 <= k < batches.len() ==> (#[trigger] batches[k]).0 < samples && batches[k].1 == if batches[k].0
            + batch_size < samples {
            batches[k].0 + batch_size
        } else {
            samples
        }
    &&& forall|k: int| 0 < k < batches.len() ==> (#[trigger] batches[k]).0 == batches[k - 1].1
}

/// Batch `k` begins at sample `k * batch_size`.
pub proof fn lemma_batch_start(batches: Seq<(usize, usize)>, samples: int, batch_size: int, k: int)
    requires
        batch_size >= 1,
        is_chunking(batches, samples, batch_size),
        0 <= k < batches.len(),
    ensures
        batches[k].0 == k * batch_size,
    decreases k,
{
    if k > 0 {
        lemma_batch_start(batches, samples, batch_size, k - 1);
        assert(batches[k].0 == batches[k - 1].1);
        assert(batches[k - 1].0 + batch_size < samples);
        assert((k - 1) * batch_size + batch_size == k * batch_size) by (nonlinear_arith);
    } else {
        assert(batches[0].0 < samples);
        assert(0 * batch_size == 0) by (nonlinear_arith);
    }
}

/// Every sample lies in one batch and in no other, and no batch holds more
/// than `batch_size` samples or none.
pub proof fn lemma_batches_cover(
    batches: Seq<(usize, usize)>,
    samples: int,
    batch_size: int,
    s: int,
)
    requires
        batch_size >= 1,
        is_chunking(batches, samples, batch_size),
        0 <= s < samples,
    ensures
        exists|k: int| 0 <= k < batches.len() && (#[trigger] batches[k]).0 <= s < batches[k].1,
        forall|k: int, l: int|
            0 <= k < batches.len() && 0 <= l < batches.len() && (#[trigger] batches[k]).0 <= s
                < batches[k].1 && (#[trigger] batches[l]).0 <= s < batches[l].1 ==> k == l,
        forall|k: int|
            0 <= k < batches.len() ==> 1 <= (#[trigger] batches[k]).1 - batches[k].0 <= batch_size,
{
    lemma_find_batch(batches, samples, batch_size, s, batches.len() - 1);
    assert forall|k: int, l: int|
        0 <= k < batches.len() && 0 <= l < batches.len() && (#[trigger] batches[k]).0 <= s
            < batches[k].1 && (#[trigger] batches[l]).0 <= s < batches[l].1 implies k == l by {
        if k < l {
            lemma_batches_ordered(batches, samples, batch_size, k, l);
        } else if l < k {
            lemma_batches_ordered(batches, samples, batch_size, l, k);
        }
    }
}

/// A later batch begins where an earlier one has ended, or behind.
pub proof fn lemma_batches_ordered(
    batches: Seq<(usize, usize)>,
    samples: int,
    batch_size: int,
    k: int,
    l: int,
)
    requires
        batch_size >= 1,
        is_chunking(batches, samples, batch_size),
        0 <= k < l < batches.len(),
    ensures
        batches[k].1 <= batches[l].0,
    decreases l - k,
{
    if k + 1 < l {
        lemma_batches_ordered(batches, samples, batch_size, k, l - 1);
        assert(batches[l].0 == batches[l - 1].1);
        assert(batches[l - 1].0 < batches[l - 1].1);
    } else {
        assert(batches[l].0 == batches[l - 1].1);
    }
}

/// A sample in front of the end of batch `upto` lies in that batch or in an
/// earlier one.
proof fn lemma_find_batch(
    batches: Seq<(usize, usize)>,
    samples: int,
    batch_size: int,
    s: int,
    upto: int,
)
    requires
        batch_size >= 1,
        is_chunking(batches, samples, batch_size),
        0 <= upto < batches.len(),
        0 <= s < batches[upto].1,
    ensures
        exists|k: int| 0 <= k <= upto && (#[trigger] batches[k]).0 <= s < batches[k].1,
    decreases upto,
{
    if batches[upto].0 <= s {
        assert(batches[upto].0 <= s < batches[upto].1);
    } else {
        assert(upto > 0);
        assert(batches[upto].0 == batches[upto - 1].1);
        lemma_find_batch(batches, samples, batch_size, s, upto - 1);
    }
}

/// Cuts `samples` entries into batches of `batch_size`.
pub fn mini_batches(samples: usize, batch_size: usize) -> (r: Vec<(usize, usize)>)
    requires
        batch_size >= 1,
    ensures
        is_chunking(r@, samples as int, batch_size as int),
{
    let mut batches: Vec<(usize, usize)> = Vec::new();
    let mut start: usize = 0;
    while start < samples
        invariant
            batch_size >= 1,
            start <= samples,
            start == 0 <==> batches@.len() == 0,
            batches@.len() > 0 ==> batches@[0].0 == 0 && batches@.last().1 == start,
            forall|k: int|
                0 <= k < batches@.len() ==> (#[trigger] batches@[k]).0 < samples && batches@[k].1
                    == if batches@[k].0 + batch_size < samples {
                    batches@[k].0 + batch_size
                } else {
                    samples as int
                },
            forall|k: int| 0 < k < batches@.len() ==> (#[trigger] batches@[k]).0 == batches@[k - 1].1,
        decreases samples - start,
    {
        let end: usize = if samples - start > batch_size {
            start + batch_size
        } else {
            samples
        };
        batches.push((start, end));
        start = end;
    }
    batches
}

/// What the caller of a training run does next.
#[derive(Debug, Clone, Copy, PartialEq, Eq)]
pub enum Action {
    /// Take one gradient step on the samples from `start` up to `end`.
    Train { start: usize, end: usize },
    /// Epoch number `epoch`, counted from one, is over: evaluate and report.
    EpochDone { epoch: u32 },
    /// All epochs are over.
    Finished,
}

/// Where a training run stands.
pub struct ScheduleView {
    /// The training samples in their present order.
    pub samples: Seq<DataView>,
    /// Number of epochs to run.
    pub epochs: u32,
    /// Largest number of samples in a batch.
    pub batch_size: usize,
    /// Number of epochs that are over.
    pub epoch: u32,
    /// Number of samples of the present epoch that have been handed out.
    pub cursor: usize,
}

/// Number of batches that are still to come in an epoch of `samples` samples
/// of which `cursor` have been handed out.
pub open spec fn batches_left(cursor: int, samples: int, batch_size: int) -> int
    decreases samples - cursor,
{
    if cursor >= samples || batch_size < 1 {
        0
    } else if cursor + batch_size < samples {
        1 + batches_left(cursor + batch_size, samples, batch_size)
    } else {
        1
    }
}

impl ScheduleView {
    pub open spec fn wf(self) -> bool {
        self.batch_size >= 1 && self.epoch <= self.epochs && self.cursor <= self.samples.len()
    }

    /// Where the batch that begins at the cursor ends.
    pub open spec fn batch_end(self) -> int {
        if self.cursor + self.batch_size < self.samples.len() {
            self.cursor + self.batch_size
        } else {
            self.samples.len() as int
        }
    }

    /// What is to be done next.
    pub open spec fn action(self) -> Action {
        if self.epoch >= self.epochs {
            Action::Finished
        } else if self.cursor < self.samples.len() {
            Action::Train { start: self.cursor, end: self.batch_end() as usize }
        } else {
            Action::EpochDone { epoch: (self.epoch + 1) as u32 }
        }
    }

    /// Whether the next step begins an epoch, and so brings the samples into
    /// a new order.
    pub open spec fn begins_epoch(self) -> bool {
        self.epoch < self.epochs && self.cursor == 0 && self.samples.len() > 0
    }

    /// Number of actions that are still to come before `Finished`.
    pub open spec fn remaining(self) -> int {
        if self.epoch >= self.epochs {
            0
        } else {
            batches_left(self.cursor as int, self.samples.len() as int, self.batch_size as int) + 1
                + (self.epochs - self.epoch - 1) * (batches_left(
                0,
                self.samples.len() as int,
                self.batch_size as int,
            ) + 1)
        }
    }
}

/// A training run by stochastic gradient descent: it holds the training
/// samples and says, step by step, which of them make the next batch.
pub struct Schedule {
    training_data: Vec<Data>,
    epochs: u32,
    mini_batch_size: usize,
    epoch: u32,
    cursor: usize,
}

impl View for Schedule {
    type V = ScheduleView;

    closed spec fn view(&self) -> ScheduleView {
        ScheduleView {
            samples: views(self.training_data@),
            epochs: self.epochs,
            batch_size: self.mini_batch_size,
            epoch: self.epoch,
            cursor: self.cursor,
        }
    }
}

/// Begins a training run of `epochs` epochs over `training_data`, in batches
/// of at most `mini_batch_size` samples.
pub fn sgd(training_data: Vec<Data>, epochs: u32, mini_batch_size: usize) -> (run: Schedule)
    requires
        mini_batch_size >= 1,
    ensures
        run@.wf(),
        run@ == (ScheduleView {
            samples: views(training_data@),
            epochs,
            batch_size: mini_batch_size,
            epoch: 0,
            cursor: 0,
        }),
{
    Schedule { training_data, epochs, mini_batch_size, epoch: 0, cursor: 0 }
}

impl Schedule {
    /// The training samples in their present order.
    pub fn samples(&self) -> (r: &Vec<Data>)
        ensures
            views(r@) == self@.samples,
    {
        &self.training_data
    }

    /// Says what is to be done next and moves on. At the beginning of an epoch
    /// the samples are brought into a random order; then they are handed out
    /// batch by batch, and when none is left the epoch is over. Each action
    /// but `Finished` brings the end one step nearer.
    pub fn next_action(&mut self) -> (a: Action)
        requires
            old(self)@.wf(),
        ensures
            final(self)@.wf(),
            a == old(self)@.action(),
            final(self)@.epochs == old(self)@.epochs,
            final(self)@.batch_size == old(self)@.batch_size,
            final(self)@.samples.to_multiset() == old(self)@.samples.to_multiset(),
            !old(self)@.begins_epoch() ==> final(self)@.samples == old(self)@.samples,
            match a {
                Action::Train { start, end } => {
                    &&& final(self)@.epoch == old(self)@.epoch
                    &&& final(self)@.cursor == end
                    &&& start < end <= final(self)@.samples.len()
                    &&& end - start <= old(self)@.batch_size
                },
                Action::EpochDone { epoch } => final(self)@.epoch == epoch && final(self)@.cursor
                    == 0,
                Action::Finished => final(self)@ == old(self)@,
            },
            a != Action::Finished ==> final(self)@.remaining() == old(self)@.remaining() - 1,
            a == Action::Finished <==> old(self)@.remaining() == 0,
    {
        let count: usize = self.training_data.len();
        proof {
            lemma_batches_left_nonnegative(
                self.cursor as int,
                count as int,
                self.mini_batch_size as int,
            );
            lemma_batches_left_nonnegative(0, count as int, self.mini_batch_size as int);
            let per_epoch = batches_left(0, count as int, self.mini_batch_size as int) + 1;
            let later = self.epochs - self.epoch - 1;
            assert(self.epoch < self.epochs ==> later * per_epoch >= 0) by (nonlinear_arith)
                requires
                    per_epoch >= 1,
                    later == self.epochs - self.epoch - 1,
            ;
            assert(self.epoch + 1 < self.epochs ==> later * per_epoch == (later - 1) * per_epoch
                + per_epoch) by (nonlinear_arith);
            assert(self.epoch + 1 == self.epochs ==> later * per_epoch == 0) by (nonlinear_arith)
                requires
                    later == self.epochs - self.epoch - 1,
            ;
        }
        if self.epoch >= self.epochs {
            return Action::Finished;
        }
        if self.cursor >= count {
            self.epoch = self.epoch + 1;
            self.cursor = 0;
            return Action::EpochDone { epoch: self.epoch };
        }
        if self.cursor == 0 {
            shuffle(&mut self.training_data);
        }
        let start: usize = self.cursor;
        let end: usize = if count - start > self.mini_batch_size {
            start + self.mini_batch_size
        } else {
            count
        };
        self.cursor = end;
        Action::Train { start, end }
    }
}

/// A run that has not begun takes as many actions as it has epochs times the
/// batches of an epoch and one more, for the end of the epoch.
pub proof fn lemma_fresh_run(run: ScheduleView)
    requires
        run.wf(),
        run.epoch == 0,
        run.cursor == 0,
    ensures
        run.remaining() == run.epochs * (batches_left(
            0,
            run.samples.len() as int,
            run.batch_size as int,
        ) + 1),
{
    let per_epoch = batches_left(0, run.samples.len() as int, run.batch_size as int) + 1;
    if run.epochs > 0 {
        assert(per_epoch + (run.epochs - 1) * per_epoch == run.epochs * per_epoch)
            by (nonlinear_arith);
    } else {
        assert(run.epochs * per_epoch == 0) by (nonlinear_arith)
            requires
                run.epochs == 0,
        ;
    }
}

/// The batches that an epoch hands out are those that `mini_batches` cuts:
/// from batch `k` on there are as many left as the cut has from `k` on.
pub proof fn lemma_batches_left_is_chunking(
    batches: Seq<(usize, usize)>,
    samples: int,
    batch_size: int,
    k: int,
)
    requires
        batch_size >= 1,
        is_chunking(batches, samples, batch_size),
        0 <= k < batches.len(),
    ensures
        batches_left(batches[k].0 as int, samples, batch_size) == batches.len() - k,
    decreases batches.len() - k,
{
    if k + 1 < batches.len() {
        lemma_batches_left_is_chunking(batches, samples, batch_size, k + 1);
        assert(batches[k + 1].0 == batches[k].1);
        assert(batches[k + 1].0 < samples);
    } else {
        assert(batches[k] == batches.last());
    }
}

/// A run hands out the batches that `mini_batches` cuts: where it stands at
/// the beginning of batch `k`, that batch is what it trains on next.
pub proof fn lemma_run_follows_chunking(run: ScheduleView, batches: Seq<(usize, usize)>, k: int)
    requires
        run.wf(),
        run.epoch < run.epochs,
        is_chunking(batches, run.samples.len() as int, run.batch_size as int),
        0 <= k < batches.len(),
        run.cursor == batches[k].0,
    ensures
        run.action() == (Action::Train { start: batches[k].0, end: batches[k].1 }),
{
}

/// The number of batches to come is never negative.
pub proof fn lemma_batches_left_nonnegative(cursor: int, samples: int, batch_size: int)
    ensures
        batches_left(cursor, samples, batch_size) >= 0,
    decreases samples - cursor,
{
    if cursor + batch_size < samples && batch_size >= 1 {
        lemma_batches_left_nonnegative(cursor + batch_size, samples, batch_size);
    }
}

/// The answer is right: its first maximum is at the index of the first
/// maximum of the target.
pub open spec fn is_hit(output: Seq<u32>, target: Seq<u32>) -> bool {
    argmax(output) == argmax(target)
}

/// Number of right answers.
pub open spec fn hits(outputs: Seq<Seq<u32>>, targets: Seq<Seq<u32>>) -> nat
    decreases outputs.len(),
{
    if outputs.len() == 0 || targets.len() == 0 {
        0
    } else {
        hits(outputs.drop_last(), targets.drop_last()) + if is_hit(outputs.last(), targets.last()) {
            1nat
        } else {
            0nat
        }
    }
}

/// An answer that is the one-hot vector of the sample's class is right, and
/// a right answer is counted.
pub proof fn lemma_exact_answer_counts(outputs: Seq<Seq<u32>>, targets: Seq<Seq<u32>>, i: int)
    requires
        outputs.len() == targets.len(),
        0 <= i < outputs.len(),
        outputs[i] == targets[i],
    ensures
        is_hit(outputs[i], targets[i]),
        hits(outputs, targets) >= 1,
    decreases outputs.len(),
{
    if i < outputs.len() - 1 {
        lemma_exact_answer_counts(outputs.drop_last(), targets.drop_last(), i);
    }
}

/// The class vectors of a list of samples.
pub open spec fn targets_of(samples: Seq<Data>) -> Seq<Seq<u32>> {
    samples.map_values(|d: Data| d@.class_vector)
}

/// The contents of a list of vectors.
pub open spec fn contents(vectors: Seq<Vec<u32>>) -> Seq<Seq<u32>> {
    vectors.map_values(|v: Vec<u32>| v@)
}

/// The first maximum of a one-hot vector is at its class.
pub proof fn lemma_argmax_one_hot(n: nat, class: int)
    requires
        0 <= class < n,
    ensures
        argmax(one_hot(n, class)) == class,
        comparable(one_hot(n, class)),
{
    let v = one_hot(n, class);
    assert(0x3f80_0000u32 & 0x7fff_ffff == 0x3f80_0000u32) by (bit_vector);
    assert(0x3f80_0000u32 & 0x8000_0000 == 0) by (bit_vector);
    assert(0u32 & 0x7fff_ffff == 0u32) by (bit_vector);
    assert(0u32 & 0x8000_0000 == 0) by (bit_vector);
    assert(rank(ONE) == 0x3f80_0000);
    assert(rank(ZERO) == 0);
    assert(!is_nan(ONE) && !is_nan(ZERO));
    crate::scalar::lemma_argmax_is_first_max(v);
    let k = argmax(v);
    assert(rank(v[class]) <= rank(v[k]));
    if k != class {
        assert(v[k] == ZERO);
        assert(v[class] == ONE);
    }
}

/// Where every answer is right, every sample counts.
pub proof fn lemma_all_hits(outputs: Seq<Seq<u32>>, targets: Seq<Seq<u32>>)
    requires
        outputs.len() == targets.len(),
        forall|i: int| 0 <= i < outputs.len() ==> is_hit(#[trigger] outputs[i], targets[i]),
    ensures
        hits(outputs, targets) == outputs.len(),
    decreases outputs.len(),
{
    if outputs.len() > 0 {
        let front = outputs.drop_last();
        let wanted = targets.drop_last();
        assert forall|i: int| 0 <= i < front.len() implies is_hit(#[trigger] front[i], wanted[i]) by {
            assert(front[i] == outputs[i]);
            assert(wanted[i] == targets[i]);
        }
        lemma_all_hits(front, wanted);
    }
}

/// One more sample raises the count by one where its output has its first
/// maximum at the index of its target's, and leaves it otherwise.
pub proof fn lemma_hits_push(
    outputs: Seq<Seq<u32>>,
    targets: Seq<Seq<u32>>,
    output: Seq<u32>,
    target: Seq<u32>,
)
    ensures
        hits(outputs.push(output), targets.push(target)) == hits(outputs, targets) + if is_hit(
            output,
            target,
        ) {
            1nat
        } else {
            0nat
        },
{
    assert(outputs.push(output).drop_last() =~= outputs);
    assert(targets.push(target).drop_last() =~= targets);
}

/// Counts the samples that the network got right: `outputs[i]` is what it
/// answered to the input of `test_data[i]`, and the answer is right where its
/// largest entry is at the index of the largest entry of the class vector.
pub fn evaluate(outputs: &Vec<Vec<u32>>, test_data: &Vec<Data>) -> (corr: usize)
    requires
        outputs@.len() == test_data@.len(),
        forall|i: int| 0 <= i < outputs@.len() ==> comparable((#[trigger] outputs@[i])@),
        forall|i: int| 0 <= i < test_data@.len() ==> comparable((#[trigger] test_data@[i])@.class_vector),
    ensures
        corr == hits(contents(outputs@), targets_of(test_data@)),
        corr <= test_data@.len(),
{
    let mut corr: usize = 0;
    let mut i: usize = 0;
    while i < outputs.len()
        invariant
            outputs@.len() == test_data@.len(),
            i <= outputs@.len(),
            corr <= i,
            corr == hits(contents(outputs@).take(i as int), targets_of(test_data@).take(i as int)),
            forall|j: int| 0 <= j < outputs@.len() ==> comparable((#[trigger] outputs@[j])@),
            forall|j: int|
                0 <= j < test_data@.len() ==> comparable((#[trigger] test_data@[j])@.class_vector),
        decreases outputs@.len() - i,
    {
        let predicted = find_max(&outputs[i]);
        let actual = find_max(test_data[i].get_class_vector());
        proof {
            let outs = contents(outputs@);
            let wanted = targets_of(test_data@);
            lemma_hits_push(
                outs.take(i as int),
                wanted.take(i as int),
                outs[i as int],
                wanted[i as int],
            );
            assert(outs.take(i as int).push(outs[i as int]) =~= outs.take(i + 1));
            assert(wanted.take(i as int).push(wanted[i as int]) =~= wanted.take(i + 1));
        }
        if predicted == actual {
            corr += 1;
        }
        i += 1;
    }
    proof {
        assert(contents(outputs@).take(i as int) =~= contents(outputs@));
        assert(targets_of(test_data@).take(i as int) =~= targets_of(test_data@));
    }
    corr
}

/// One step of backpropagation for one sample. Layer 0 is the input layer;
/// step `layer` of the network leads from layer `layer` to layer `layer + 1`
/// with the weights `W[layer]` and the biases `b[layer]`. The activation of
/// the input layer, `a[0]`, is the input of the sample.
#[derive(Debug, Clone, Copy, PartialEq, Eq, Structural)]
pub enum Step {
    /// Forward pass: `z[layer] = W[layer] * a[layer] + b[layer]`, and
    /// `a[layer + 1]` is the sigmoid of `z[layer]`.
    Forward { layer: usize },
    /// Error of the output layer: `delta` is the difference of `a[layer + 1]`
    /// and the target, times the derivative of the sigmoid at `z[layer]`,
    /// entry by entry. The gradient of `b[layer]` is `delta`, that of
    /// `W[layer]` is the outer product of `delta` and `a[layer]`.
    OutputError { layer: usize },
    /// Error of a hidden layer: the new `delta` is the transpose of
    /// `W[layer + 1]` applied to the old one, times the derivative of the
    /// sigmoid at `z[layer]`, entry by entry. The gradient of `b[layer]` is
    /// `delta`, that of `W[layer]` is the outer product of `delta` and
    /// `a[layer]`.
    HiddenError { layer: usize },
}

impl Step {
    /// The step of the network that the step works on.
    pub open spec fn layer(self) -> usize {
        match self {
            Step::Forward { layer } => layer,
            Step::OutputError { layer } => layer,
            Step::HiddenError { layer } => layer,
        }
    }
}

/// The step that follows `previous` in the backpropagation through a network
/// of `transitions` steps, or the first one where there is no previous: the
/// forward pass from the first step to the last, then the error of the output
/// layer, then the errors of the hidden layers from the last to the first.
pub open spec fn step_after(previous: Option<Step>, transitions: int) -> Option<Step> {
    match previous {
        None => if transitions > 0 {
            Some(Step::Forward { layer: 0 })
        } else {
            None
        },
        Some(Step::Forward { layer }) => if layer + 1 < transitions {
            Some(Step::Forward { layer: (layer + 1) as usize })
        } else {
            Some(Step::OutputError { layer })
        },
        Some(Step::OutputError { layer }) => if layer > 0 {
            Some(Step::HiddenError { layer: (layer - 1) as usize })
        } else {
            None
        },
        Some(Step::HiddenError { layer }) => if layer > 0 {
            Some(Step::HiddenError { layer: (layer - 1) as usize })
        } else {
            None
        },
    }
}

/// The step is one of the backpropagation through a network of `transitions`
/// steps: it works on a step of the network, and the error of the output
/// layer on the last.
pub open spec fn step_in_range(step: Option<Step>, transitions: int) -> bool {
    match step {
        None => true,
        Some(Step::OutputError { layer }) => layer == transitions - 1,
        Some(s) => s.layer() < transitions,
    }
}

/// Number of steps that follow `previous`.
pub open spec fn steps_after(previous: Option<Step>, transitions: int) -> int {
    match previous {
        None => 2 * transitions,
        Some(Step::Forward { layer }) => 2 * transitions - layer - 1,
        Some(Step::OutputError { layer }) => layer as int,
        Some(Step::HiddenError { layer }) => layer as int,
    }
}

/// The step of backpropagation that follows `previous`, or the first one.
/// A backpropagation has twice as many steps as the network: each step in
/// range is followed by one in range, until none is left.
pub fn backprop(previous: Option<Step>, transitions: usize) -> (next: Option<Step>)
    ensures
        next == step_after(previous, transitions as int),
        step_in_range(previous, transitions as int) ==> step_in_range(next, transitions as int),
        step_in_range(previous, transitions as int) ==> match next {
            Some(step) => steps_after(next, transitions as int) == steps_after(
                previous,
                transitions as int,
            ) - 1,
            None => steps_after(previous, transitions as int) == 0,
        },
{
    match previous {
        None => if transitions > 0 {
            Some(Step::Forward { layer: 0 })
        } else {
            None
        },
        Some(Step::Forward { layer }) => if layer < transitions && layer + 1 < transitions {
            Some(Step::Forward { layer: layer + 1 })
        } else {
            Some(Step::OutputError { layer })
        },
        Some(Step::OutputError { layer }) => if layer > 0 {
            Some(Step::HiddenError { layer: layer - 1 })
        } else {
            None
        },
        Some(Step::HiddenError { layer }) => if layer > 0 {
            Some(Step::HiddenError { layer: layer - 1 })
        } else {
            None
        },
    }
}

/// Every input is a vector with a largest element.
pub open spec fn inputs_comparable(data: Seq<Data>) -> bool {
    forall|i: int| 0 <= i < data.len() ==> comparable((#[trigger] data[i])@.input)
}

/// No entry of the vector is above `bound`.
pub open spec fn entries_within(input: Seq<u32>, bound: u32) -> bool {
    forall|j: int| 0 <= j < input.len() ==> rank(#[trigger] input[j]) <= rank(bound)
}

/// No entry of any input is above `bound`.
pub open spec fn inputs_within(data: Seq<Data>, bound: u32) -> bool {
    forall|i: int| 0 <= i < data.len() ==> entries_within((#[trigger] data[i])@.input, bound)
}

/// `x` is an entry of an input.
pub open spec fn is_input_entry(data: Seq<Data>, x: u32) -> bool {
    exists|i: int, j: int|
        0 <= i < data.len() && 0 <= j < data[i]@.input.len() && #[trigger] data[i]@.input[j] == x
}

/// The largest entry among `start` and the inputs of the samples.
fn largest_among(data: &Vec<Data>, start: u32) -> (m: u32)
    requires
        inputs_comparable(data@),
    ensures
        rank(m) >= rank(start),
        inputs_within(data@, m),
        m == start || is_input_entry(data@, m),
{
    let mut max: u32 = start;
    let mut i: usize = 0;
    while i < data.len()
        invariant
            i <= data@.len(),
            inputs_comparable(data@),
            rank(max) >= rank(start),
            forall|k: int| 0 <= k < i ==> entries_within((#[trigger] data@[k])@.input, max),
            max == start || is_input_entry(data@, max),
        decreases data@.len() - i,
    {
        let input = data[i].get_input();
        let at: usize = find_max(input);
        let tmp: u32 = input[at];
        if crate::scalar::less_than(max, tmp) {
            max = tmp;
            assert(data@[i as int]@.input[at as int] == max);
        }
        assert(entries_within(data@[i as int]@.input, max));
        i += 1;
    }
    max
}

/// The largest entry of all the inputs of both sets, or zero where none is
/// above zero: the number by which the inputs are divided to bring them
/// between zero and one.
pub fn largest_input(train: &Vec<Data>, test: &Vec<Data>) -> (m: u32)
    requires
        inputs_comparable(train@),
        inputs_comparable(test@),
    ensures
        rank(m) >= rank(ZERO),
        inputs_within(train@, m),
        inputs_within(test@, m),
        m == ZERO || is_input_entry(train@, m) || is_input_entry(test@, m),
{
    let first = largest_among(train, ZERO);
    largest_among(test, first)
}

/// The set in which an input is above one.
#[derive(Debug, Clone, Copy, PartialEq, Eq)]
pub enum Unsanitised {
    Train,
    Test,
}

/// Whether no entry of any input is above one.
fn all_within_one(data: &Vec<Data>) -> (r: bool)
    requires
        inputs_comparable(data@),
    ensures
        r == inputs_within(data@, ONE),
{
    let mut i: usize = 0;
    while i < data.len()
        invariant
            i <= data@.len(),
            inputs_comparable(data@),
            forall|k: int| 0 <= k < i ==> entries_within((#[trigger] data@[k])@.input, ONE),
        decreases data@.len() - i,
    {
        let input = data[i].get_input();
        let at: usize = find_max(input);
        if crate::scalar::less_than(ONE, input[at]) {
            assert(!entries_within(data@[i as int]@.input, ONE));
            return false;
        }
        assert(entries_within(data@[i as int]@.input, ONE));
        i += 1;
    }
    true
}

/// Checks that no input is above one: first in the training set, then in the
/// test set.
pub fn check_san(train: &Vec<Data>, test: &Vec<Data>) -> (r: Result<(), Unsanitised>)
    requires
        inputs_comparable(train@),
        inputs_comparable(test@),
    ensures
        !inputs_within(train@, ONE) ==> r == Err::<(), Unsanitised>(Unsanitised::Train),
        inputs_within(train@, ONE) && !inputs_within(test@, ONE) ==> r == Err::<(), Unsanitised>(
            Unsanitised::Test,
        ),
        inputs_within(train@, ONE) && inputs_within(test@, ONE) ==> r.is_ok(),
{
    if !all_within_one(train) {
        Err(Unsanitised::Train)
    } else if !all_within_one(test) {
        Err(Unsanitised::Test)
    } else {
        Ok(())
    }
}

/// Whether every input is a vector with a largest element.
pub fn have_largest(data: &Vec<Data>) -> (r: bool)
    ensures
        r == inputs_comparable(data@),
{
    let mut i: usize = 0;
    while i < data.len()
        invariant
            i <= data@.len(),
            forall|k: int| 0 <= k < i ==> comparable((#[trigger] data@[k])@.input),
        decreases data@.len() - i,
    {
        if !crate::scalar::is_comparable(data[i].get_input()) {
            return false;
        }
        i += 1;
    }
    true
}

/// Accumulators for the gradient of one batch: for each step of the network
/// a bias vector and a weight matrix of the shape that the network has there,
/// every entry zero.
pub fn zero_gradient(nn: &Network) -> (r: (Vec<Vec<u32>>, Vec<Matrix>))
    requires
        nn@.wf(),
    ensures
        r.0@.len() == nn@.biases.len(),
        r.1@.len() == nn@.weights.len(),
        forall|i: int|
            0 <= i < r.0@.len() ==> bias_fits(nn@.layers, i, (#[trigger] r.0@[i])@) && forall|j: int|
                0 <= j < r.0@[i]@.len() ==> r.0@[i]@[j] == ZERO,
        forall|i: int|
            0 <= i < r.1@.len() ==> weight_fits(nn@.layers, i, (#[trigger] r.1@[i])@) && forall|j: int|
                0 <= j < r.1@[i]@.entries.len() ==> r.1@[i]@.entries[j] == ZERO,
{
    let layers = nn.get_layers();
    let mut nabla_b: Vec<Vec<u32>> = Vec::new();
    let mut nabla_w: Vec<Matrix> = Vec::new();
    let mut i: usize = 0;
    while i < layers.len() - 1
        invariant
            layers@ == nn@.layers,
            layers@.len() >= 3,
            i <= layers@.len() - 1,
            nabla_b@.len() == i,
            nabla_w@.len() == i,
            forall|k: int|
                0 <= k < i ==> bias_fits(layers@, k, (#[trigger] nabla_b@[k])@) && forall|j: int|
                    0 <= j < nabla_b@[k]@.len() ==> nabla_b@[k]@[j] == ZERO,
            forall|k: int|
                0 <= k < i ==> weight_fits(layers@, k, (#[trigger] nabla_w@[k])@) && forall|j: int|
                    0 <= j < nabla_w@[k]@.entries.len() ==> nabla_w@[k]@.entries[j] == ZERO,
        decreases layers@.len() - 1 - i,
    {
        let rows: usize = layers[i + 1] as usize;
        let columns: usize = layers[i] as usize;
        assert(rows * columns <= 255 * 255) by (nonlinear_arith)
            requires
                rows <= 255,
                columns <= 255,
        ;
        let mut bias: Vec<u32> = Vec::new();
        let mut j: usize = 0;
        while j < rows
            invariant
                j <= rows,
                bias@.len() == j,
                forall|t: int| 0 <= t < j ==> bias@[t] == ZERO,
            decreases rows - j,
        {
            bias.push(ZERO);
            j += 1;
        }
        nabla_b.push(bias);
        nabla_w.push(Matrix::new_zeros(rows, columns));
        i += 1;
    }
    (nabla_b, nabla_w)
}

} // verus!
