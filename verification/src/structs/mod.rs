//! Samples, the records they are made from, and the stored form of a network.

pub mod flower;
pub mod mnist;
pub mod serialnet;

use crate::nn::matrix::copy_range;
use crate::scalar::{ONE, ZERO};
use vstd::prelude::*;

verus! {

/// What a sample is: the input of the network and the output wanted for it.
pub struct DataView {
    pub input: Seq<u32>,
    pub class_vector: Seq<u32>,
}

/// The vector of `n` entries that is one at `class` and zero elsewhere.
pub open spec fn one_hot(n: nat, class: int) -> Seq<u32> {
    Seq::new(
        n,
        |i: int|
            if i == class {
                ONE
            } else {
                ZERO
            },
    )
}

/// One labelled sample.
#[derive(Debug)]
pub struct Data {
    /// Input vector for the input layer.
    input: Vec<u32>,
    /// The class of the sample, as the output wanted from the network.
    class_vector: Vec<u32>,
}

impl View for Data {
    type V = DataView;

    closed spec fn view(&self) -> DataView {
        DataView { input: self.input@, class_vector: self.class_vector@ }
    }
}

impl Data {
    /// A sample with the given input whose class vector has `output_neurons`
    /// entries, one at `class` and zero elsewhere.
    pub fn new(vec: Vec<u32>, class: u8, output_neurons: usize) -> (d: Data)
        requires
            (class as int) < output_neurons,
        ensures
            d@.input == vec@,
            d@.class_vector == one_hot(output_neurons as nat, class as int),
    {
        let mut class_v: Vec<u32> = Vec::new();
        let mut i: usize = 0;
        while i < output_neurons
            invariant
                i <= output_neurons,
                class_v@.len() == i,
                forall|j: int| 0 <= j < i ==> class_v@[j] == ZERO,
            decreases output_neurons - i,
        {
            class_v.push(ZERO);
            i += 1;
        }
        class_v.set(class as usize, ONE);
        assert(class_v@ =~= one_hot(output_neurons as nat, class as int));
        Data { input: vec, class_vector: class_v }
    }

    /// The input vector.
    pub fn get_input(&self) -> (r: &Vec<u32>)
        ensures
            r@ == self@.input,
    {
        &self.input
    }

    /// The input vector, to be changed in place.
    pub fn get_input_mut(&mut self) -> (r: &mut Vec<u32>)
        ensures
            r@ == old(self)@.input,
            final(self)@.input == final(r)@,
            final(self)@.class_vector == old(self)@.class_vector,
    {
        &mut self.input
    }

    /// The class vector.
    pub fn get_class_vector(&self) -> (r: &Vec<u32>)
        ensures
            r@ == self@.class_vector,
    {
        &self.class_vector
    }

    /// A sample equal to this one.
    pub fn duplicate(&self) -> (d: Data)
        ensures
            d@ == self@,
    {
        let input = copy_range(&self.input, 0, self.input.len());
        let class_vector = copy_range(&self.class_vector, 0, self.class_vector.len());
        assert(input@ =~= self.input@);
        assert(class_vector@ =~= self.class_vector@);
        Data { input, class_vector }
    }
}

/// A label that stands for a class number.
pub trait Classifier {
    /// The class number of the label.
    spec fn class_of(&self) -> u8;

    /// The class number of the label.
    fn classify(&self) -> (r: u8)
        ensures
            r == self.class_of(),
    ;
}

} // verus!
