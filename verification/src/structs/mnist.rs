//! Handwritten digits: a picture and the digit it shows.

use crate::nn::matrix::copy_range;
use crate::structs::{one_hot, Data};
use vstd::prelude::*;

verus! {

/// Number of pixels of a picture.
pub const PIXELS: usize = 784;

/// Number of digits.
pub const DIGITS: usize = 10;

/// What a digit record is.
pub struct MnistView {
    pub result: u8,
    pub data: Seq<u32>,
}

/// A picture of a handwritten digit.
#[derive(Debug)]
pub struct Mnist {
    /// The digit shown, between 0 and 9.
    result: u8,
    /// The pixels, each a scalar between zero and one.
    data: Vec<u32>,
}

impl View for Mnist {
    type V = MnistView;

    closed spec fn view(&self) -> MnistView {
        MnistView { result: self.result, data: self.data@ }
    }
}

impl Mnist {
    /// A record of the digit `result` with the given pixels.
    pub fn new(result: u8, data: Vec<u32>) -> (m: Mnist)
        ensures
            m@.result == result,
            m@.data == data@,
    {
        Mnist { result, data }
    }

    /// The digit shown.
    pub fn get_class(&self) -> (r: u8)
        ensures
            r == self@.result,
    {
        self.result
    }

    /// The pixels.
    pub fn get_slice(&self) -> (r: &Vec<u32>)
        ensures
            r@ == self@.data,
    {
        &self.data
    }

    /// Whether the record can be made a sample: it shows a digit and holds a
    /// whole picture.
    pub fn is_complete(&self) -> (r: bool)
        ensures
            r == (self@.result < DIGITS && self@.data.len() >= PIXELS),
    {
        (self.result as usize) < DIGITS && self.data.len() >= PIXELS
    }

    /// The record as a sample: its first 784 pixels as input, its digit as one
    /// of ten classes.
    pub fn to_data(&self) -> (d: Data)
        requires
            self@.result < DIGITS,
            self@.data.len() >= PIXELS,
        ensures
            d@.input == self@.data.subrange(0, PIXELS as int),
            d@.class_vector == one_hot(DIGITS as nat, self@.result as int),
    {
        Data::new(copy_range(&self.data, 0, PIXELS), self.result, DIGITS)
    }
}

} // verus!
