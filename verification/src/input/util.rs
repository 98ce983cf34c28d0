//! Dividing the samples between training and validation.

use crate::nn::learning::{shuffle, views};
use crate::structs::Data;
use vstd::prelude::*;

verus! {

/// Copies of the samples from `start` up to `end`.
pub fn copy_samples(input: &Vec<Data>, start: usize, end: usize) -> (r: Vec<Data>)
    requires
        start <= end <= input@.len(),
    ensures
        views(r@) == views(input@).subrange(start as int, end as int),
{
    let mut out: Vec<Data> = Vec::new();
    let mut i: usize = start;
    while i < end
        invariant
            start <= i <= end <= input@.len(),
            out@.len() == i - start,
            forall|j: int| 0 <= j < out@.len() ==> (#[trigger] out@[j])@ == input@[start + j]@,
        decreases end - i,
    {
        out.push(input[i].duplicate());
        i += 1;
    }
    assert(views(out@) =~= views(input@).subrange(start as int, end as int));
    out
}

/// Splits the samples into a training and a validation set, in this order.
/// The samples are brought into a random order first; the last
/// `test_data_size` of them are then set aside for validation, and all the
/// others are for training.
pub fn split_data(input: &mut Vec<Data>, test_data_size: usize) -> (r: (Vec<Data>, Vec<Data>))
    requires
        test_data_size <= old(input)@.len(),
    ensures
        final(input)@.len() == old(input)@.len(),
        views(final(input)@).to_multiset() == views(old(input)@).to_multiset(),
        views(r.0@) == views(final(input)@).subrange(0, final(input)@.len() - test_data_size),
        views(r.1@) == views(final(input)@).subrange(
            final(input)@.len() - test_data_size,
            final(input)@.len() as int,
        ),
        views(r.0@) + views(r.1@) == views(final(input)@),
{
    shuffle(input);
    let count: usize = input.len();
    let training_data = copy_samples(input, 0, count - test_data_size);
    let test_data = copy_samples(input, count - test_data_size, count);
    assert(views(training_data@) + views(test_data@) =~= views(input@));
    (training_data, test_data)
}

/// Turns raw records into samples, each by its own conversion, in their
/// order.
pub fn generic_to_data<T: Into<Data>>(input: Vec<T>) -> (r: Vec<Data>)
    ensures
        r@.len() == input@.len(),
        forall|i: int|
            0 <= i < r@.len() ==> call_ensures(<T as Into<Data>>::into, (input@[i],), #[trigger] r@[i]),
{
    let mut rest: Vec<T> = input;
    let mut reversed: Vec<Data> = Vec::new();
    while rest.len() > 0
        invariant
            rest@.len() + reversed@.len() == input@.len(),
            rest@ == input@.take(rest@.len() as int),
            forall|i: int|
                0 <= i < reversed@.len() ==> call_ensures(
                    <T as Into<Data>>::into,
                    (input@[input@.len() - 1 - i],),
                    #[trigger] reversed@[i],
                ),
        decreases rest@.len(),
    {
        match rest.pop() {
            Some(record) => {
                reversed.push(record.into());
            },
            None => {},
        }
    }
    let mut input_data: Vec<Data> = Vec::new();
    while reversed.len() > 0
        invariant
            reversed@.len() + input_data@.len() == input@.len(),
            forall|i: int|
                0 <= i < reversed@.len() ==> call_ensures(
                    <T as Into<Data>>::into,
                    (input@[input@.len() - 1 - i],),
                    #[trigger] reversed@[i],
                ),
            forall|i: int|
                0 <= i < input_data@.len() ==> call_ensures(
                    <T as Into<Data>>::into,
                    (input@[i],),
                    #[trigger] input_data@[i],
                ),
        decreases reversed@.len(),
    {
        match reversed.pop() {
            Some(sample) => {
                input_data.push(sample);
            },
            None => {},
        }
    }
    input_data
}

} // verus!
